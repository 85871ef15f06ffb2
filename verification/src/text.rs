//! String helpers the rest of the crate is specified with.

use vstd::prelude::*;
use vstd::utf8::*;

verus! {

/// The contents of an optional string.
pub open spec fn opt_view(s: Option<String>) -> Option<Seq<char>> {
    match s {
        Some(t) => Some(t@),
        None => None,
    }
}

/// The contents of an optional string slice.
pub open spec fn opt_str_view(s: Option<&str>) -> Option<Seq<char>> {
    match s {
        Some(t) => Some(t@),
        None => None,
    }
}

/// The views of the items of a sequence, in order.
pub open spec fn views<T: View>(s: Seq<T>) -> Seq<T::V> {
    Seq::new(s.len(), |i: int| s[i]@)
}

/// Appending an item appends its view.
pub broadcast proof fn lemma_views_push<T: View>(s: Seq<T>, t: T)
    ensures
        #[trigger] views(s.push(t)) == views(s).push(t@),
{
    assert(views(s.push(t)) =~= views(s).push(t@));
}

/// Two strings are equal when their UTF-8 encodings are.
proof fn lemma_encoding_decides(a: Seq<char>, b: Seq<char>)
    ensures
        (encode_utf8(a) == encode_utf8(b)) == (a == b),
{
    encode_utf8_decode_utf8(a);
    encode_utf8_decode_utf8(b);
}

/// Whether two string slices hold the same characters.
pub fn same(a: &str, b: &str) -> (r: bool)
    ensures
        r == (a@ == b@),
{
    let x: &[u8] = a.as_bytes();
    let y: &[u8] = b.as_bytes();
    proof {
        lemma_encoding_decides(a@, b@);
    }
    if x.len() != y.len() {
        return false;
    }
    let mut i: usize = 0;
    while i < x.len()
        invariant
            i <= x.len(),
            x@.len() == y@.len(),
            x@ == encode_utf8(a@),
            y@ == encode_utf8(b@),
            (x@ == y@) == (a@ == b@),
            forall|j: int| 0 <= j < i ==> x@[j] == y@[j],
        decreases x.len() - i,
    {
        if x[i] != y[i] {
            return false;
        }
        i += 1;
    }
    assert(x@ =~= y@);
    true
}

/// Whether two optional strings are both absent or hold the same characters.
pub fn same_opt(a: &Option<String>, b: &Option<String>) -> (r: bool)
    ensures
        r == (opt_view(*a) == opt_view(*b)),
{
    match (a, b) {
        (Some(x), Some(y)) => same(x.as_str(), y.as_str()),
        (None, None) => true,
        _ => false,
    }
}

/// An owned copy of an optional string slice.
pub fn own_opt(s: Option<&str>) -> (r: Option<String>)
    ensures
        opt_view(r) == opt_str_view(s),
{
    match s {
        Some(t) => Some(t.to_owned()),
        None => None,
    }
}

/// A borrowed view of an optional string.
pub fn borrow_opt(s: &Option<String>) -> (r: Option<&str>)
    ensures
        opt_str_view(r) == opt_view(*s),
{
    match s {
        Some(t) => Some(t.as_str()),
        None => None,
    }
}

/// Lexicographic order on byte sequences.
pub open spec fn bytes_le(a: Seq<u8>, b: Seq<u8>) -> bool
    decreases a.len(),
{
    if a.len() == 0 {
        true
    } else if b.len() == 0 {
        false
    } else if a[0] != b[0] {
        a[0] < b[0]
    } else {
        bytes_le(a.drop_first(), b.drop_first())
    }
}

/// The order of strings: lexicographic by the bytes of their encodings.
pub open spec fn text_le(a: Seq<char>, b: Seq<char>) -> bool {
    bytes_le(encode_utf8(a), encode_utf8(b))
}

proof fn lemma_bytes_total(a: Seq<u8>, b: Seq<u8>)
    ensures
        bytes_le(a, b) || bytes_le(b, a),
    decreases a.len(),
{
    if a.len() > 0 && b.len() > 0 && a[0] == b[0] {
        lemma_bytes_total(a.drop_first(), b.drop_first());
    }
}

proof fn lemma_bytes_trans(a: Seq<u8>, b: Seq<u8>, c: Seq<u8>)
    requires
        bytes_le(a, b),
        bytes_le(b, c),
    ensures
        bytes_le(a, c),
    decreases a.len(),
{
    if a.len() > 0 && b.len() > 0 && c.len() > 0 && a[0] == b[0] && b[0] == c[0] {
        lemma_bytes_trans(a.drop_first(), b.drop_first(), c.drop_first());
    }
}

proof fn lemma_bytes_antisym(a: Seq<u8>, b: Seq<u8>)
    requires
        bytes_le(a, b),
        bytes_le(b, a),
    ensures
        a == b,
    decreases a.len(),
{
    if a.len() > 0 && b.len() > 0 {
        lemma_bytes_antisym(a.drop_first(), b.drop_first());
        assert(a =~= seq![a[0]] + a.drop_first());
        assert(b =~= seq![b[0]] + b.drop_first());
    } else {
        assert(a =~= b);
    }
}

/// Of two strings, one precedes the other.
pub proof fn lemma_text_total(a: Seq<char>, b: Seq<char>)
    ensures
        text_le(a, b) || text_le(b, a),
{
    lemma_bytes_total(encode_utf8(a), encode_utf8(b));
}

/// The order of strings is transitive.
pub proof fn lemma_text_trans(a: Seq<char>, b: Seq<char>, c: Seq<char>)
    requires
        text_le(a, b),
        text_le(b, c),
    ensures
        text_le(a, c),
{
    lemma_bytes_trans(encode_utf8(a), encode_utf8(b), encode_utf8(c));
}

/// Strings that precede each other are equal.
pub proof fn lemma_text_antisym(a: Seq<char>, b: Seq<char>)
    requires
        text_le(a, b),
        text_le(b, a),
    ensures
        a == b,
{
    lemma_bytes_antisym(encode_utf8(a), encode_utf8(b));
    lemma_encoding_decides(a, b);
}

proof fn lemma_bytes_skip(a: Seq<u8>, b: Seq<u8>, n: int)
    requires
        0 <= n <= a.len(),
        n <= b.len(),
        forall|j: int| 0 <= j < n ==> a[j] == b[j],
    ensures
        bytes_le(a, b) == bytes_le(a.skip(n), b.skip(n)),
    decreases n,
{
    if n == 0 {
        assert(a.skip(0) =~= a);
        assert(b.skip(0) =~= b);
    } else {
        assert(a[0] == b[0]);
        lemma_bytes_skip(a.drop_first(), b.drop_first(), n - 1);
        assert(a.drop_first().skip(n - 1) =~= a.skip(n));
        assert(b.drop_first().skip(n - 1) =~= b.skip(n));
    }
}

/// Whether `a` precedes or equals `b`.
pub fn precedes(a: &str, b: &str) -> (r: bool)
    ensures
        r == text_le(a@, b@),
{
    let x: &[u8] = a.as_bytes();
    let y: &[u8] = b.as_bytes();
    let mut i: usize = 0;
    while i < x.len() && i < y.len() && x[i] == y[i]
        invariant
            i <= x.len(),
            i <= y.len(),
            forall|j: int| 0 <= j < i ==> x@[j] == y@[j],
        decreases x.len() - i,
    {
        i += 1;
    }
    proof {
        lemma_bytes_skip(x@, y@, i as int);
    }
    if i == x.len() {
        true
    } else if i == y.len() {
        false
    } else {
        x[i] < y[i]
    }
}

/// Whether a sequence of strings is in ascending order.
pub open spec fn ascending(s: Seq<Seq<char>>) -> bool {
    forall|i: int, j: int| 0 <= i <= j < s.len() ==> text_le(#[trigger] s[i], #[trigger] s[j])
}

/// Whether `s` lists the items of `set` in ascending order, each once.
pub open spec fn sorted_set(s: Seq<Seq<char>>, set: Set<Seq<char>>) -> bool {
    ascending(s) && s.no_duplicates() && s.to_set() == set
}

/// A set can be listed in ascending order in one way only, so what is listed so,
/// such as the labels that a request arrived with, is deterministic.
pub proof fn sorted_names_are_determined(
    a: Seq<Seq<char>>,
    b: Seq<Seq<char>>,
    set: Set<Seq<char>>,
)
    requires
        sorted_set(a, set),
        sorted_set(b, set),
    ensures
        a == b,
    decreases a.len(),
{
    if a.len() == 0 || b.len() == 0 {
        if a.len() > 0 {
            assert(a.to_set().contains(a[0]));
            assert(b.contains(a[0]));
        }
        if b.len() > 0 {
            assert(b.to_set().contains(b[0]));
            assert(a.contains(b[0]));
        }
        assert(a =~= b);
    } else {
        let x = a.last();
        let y = b.last();
        assert(a.to_set().contains(x) && b.to_set().contains(y));
        let i = choose|i: int| 0 <= i < b.len() && b[i] == x;
        let j = choose|j: int| 0 <= j < a.len() && a[j] == y;
        assert(b.contains(x) && a.contains(y));
        lemma_text_antisym(x, y);
        lemma_without_last(a, set);
        lemma_without_last(b, set);
        sorted_names_are_determined(a.drop_last(), b.drop_last(), set.remove(x));
        assert(a =~= a.drop_last().push(x));
        assert(b =~= b.drop_last().push(x));
    }
}

proof fn lemma_without_last(s: Seq<Seq<char>>, set: Set<Seq<char>>)
    requires
        sorted_set(s, set),
        s.len() > 0,
    ensures
        sorted_set(s.drop_last(), set.remove(s.last())),
{
    let rest = s.drop_last();
    assert forall|x: Seq<char>| rest.to_set().contains(x) == set.remove(s.last()).contains(x) by {
        if rest.contains(x) {
            let i = choose|i: int| 0 <= i < rest.len() && rest[i] == x;
            assert(s[i] == x);
            assert(s.to_set().contains(x));
        }
        if set.contains(x) && x != s.last() {
            assert(s.to_set().contains(x));
            let i = choose|i: int| 0 <= i < s.len() && s[i] == x;
            assert(rest[i] == x);
        }
    }
    assert(rest.to_set() =~= set.remove(s.last()));
}

/// Sorts strings into ascending order.
pub fn sort_strings(list: Vec<String>) -> (r: Vec<String>)
    ensures
        ascending(views(r@)),
        views(r@).to_multiset() == views(list@).to_multiset(),
{
    broadcast use lemma_views_push;
    broadcast use vstd::seq_lib::group_to_multiset_ensures;

    let mut out: Vec<String> = Vec::new();
    let mut rest: Vec<String> = list;
    assert(views(out@) =~= Seq::<Seq<char>>::empty());
    assert(views(out@).to_multiset().add(views(rest@).to_multiset()) =~= views(list@).to_multiset());
    while rest.len() > 0
        invariant
            ascending(views(out@)),
            views(out@).to_multiset().add(views(rest@).to_multiset()) =~= views(
                list@,
            ).to_multiset(),
        decreases rest.len(),
    {
        let ghost rest0 = views(rest@);
        let ghost out0 = views(out@);
        let item: String = rest.remove(0);
        assert(views(rest@) =~= rest0.remove(0));
        let mut at: usize = out.len();
        while at > 0 && !precedes(out[at - 1].as_str(), item.as_str())
            invariant
                at <= out.len(),
                views(out@) == out0,
                forall|j: int| at <= j < out.len() ==> !text_le(#[trigger] out0[j], item@),
            decreases at,
        {
            assert(out0[at - 1] == out@[at - 1]@);
            at -= 1;
        }
        proof {
            lemma_insert_keeps_order(out0, at as int, item@);
        }
        proof {
            vstd::seq_lib::to_multiset_insert(out0, at as int, item@);
            vstd::seq_lib::to_multiset_remove(rest0, 0);
            vstd::seq_lib::to_multiset_contains(rest0, item@);
            assert(rest0[0] == item@);
        }
        out.insert(at, item);
        assert(views(out@) =~= out0.insert(at as int, item@));
    }
    assert(views(rest@).to_multiset() =~= vstd::multiset::Multiset::empty());
    out
}

proof fn lemma_insert_keeps_order(s: Seq<Seq<char>>, at: int, item: Seq<char>)
    requires
        ascending(s),
        0 <= at <= s.len(),
        at > 0 ==> text_le(s[at - 1], item),
        forall|j: int| at <= j < s.len() ==> !text_le(#[trigger] s[j], item),
    ensures
        ascending(s.insert(at, item)),
{
    let t = s.insert(at, item);
    assert forall|i: int, j: int| 0 <= i <= j < t.len() implies text_le(
        #[trigger] t[i],
        #[trigger] t[j],
    ) by {
        lemma_text_total(item, item);
        if i < at && j == at {
            assert(text_le(s[i], s[at - 1]));
            lemma_text_trans(s[i], s[at - 1], item);
        } else if i == at && j > at {
            lemma_text_total(item, s[j - 1]);
        } else if i < at && j > at {
            assert(text_le(s[i], s[j - 1]));
        } else if i > at {
            assert(text_le(s[i - 1], s[j - 1]));
        } else if i < at && j < at {
            assert(text_le(s[i], s[j]));
        }
    }
}

/// The decimal digits of a number, most significant first.
pub open spec fn decimal_text(n: nat) -> Seq<char>
    decreases n,
{
    if n < 10 {
        seq![(('0' as int) + n) as char]
    } else {
        decimal_text(n / 10).push((('0' as int) + n % 10) as char)
    }
}

/// Writes a number in decimal.
pub fn decimal(n: u64) -> (r: String)
    ensures
        r@ == decimal_text(n as nat),
    decreases n,
{
    let digit: char = digit_char((n % 10) as u8);
    if n < 10 {
        let mut s: String = String::new();
        push_char(&mut s, digit);
        assert(s@ =~= decimal_text(n as nat));
        s
    } else {
        let mut s: String = decimal(n / 10);
        push_char(&mut s, digit);
        s
    }
}

fn digit_char(d: u8) -> (c: char)
    requires
        d < 10,
    ensures
        c == (('0' as int) + d) as char,
{
    (48u8 + d) as char
}

/// Appends one character with [`String::push`], which leaves the characters
/// before it as they were.
#[verifier::external_body]
pub(crate) fn push_char(s: &mut String, c: char)
    ensures
        final(s)@ == old(s)@.push(c),
{
    s.push(c)
}

/// The lower-case hexadecimal digit for a value below sixteen.
pub open spec fn hex_digit(d: int) -> char {
    if d < 10 {
        (('0' as int) + d) as char
    } else {
        (('a' as int) + (d - 10)) as char
    }
}

/// Two lower-case hexadecimal digits per byte.
pub open spec fn hex_text(bytes: Seq<u8>) -> Seq<char> {
    Seq::new(
        2 * bytes.len(),
        |i: int|
            if i % 2 == 0 {
                hex_digit((bytes[i / 2] / 16) as int)
            } else {
                hex_digit((bytes[i / 2] % 16) as int)
            },
    )
}

/// Whether a character is a lower-case hexadecimal digit.
pub open spec fn is_hex(c: char) -> bool {
    ('0' <= c && c <= '9') || ('a' <= c && c <= 'f')
}

fn hex_char(d: u8) -> (c: char)
    requires
        d < 16,
    ensures
        c == hex_digit(d as int),
{
    if d < 10 {
        (48u8 + d) as char
    } else {
        (97u8 + (d - 10)) as char
    }
}

/// Appends the hexadecimal form of `bytes` to `s`.
pub fn append_hex(s: &mut String, bytes: &[u8])
    ensures
        final(s)@ == old(s)@ + hex_text(bytes@),
{
    let ghost start = s@;
    let mut i: usize = 0;
    while i < bytes.len()
        invariant
            i <= bytes@.len(),
            s@ == start + hex_text(bytes@).take(2 * i),
        decreases bytes.len() - i,
    {
        let b: u8 = bytes[i];
        push_char(s, hex_char(b / 16));
        push_char(s, hex_char(b % 16));
        i += 1;
        assert(hex_text(bytes@).take(2 * i) =~= hex_text(bytes@).take(2 * (i - 1)).push(
            hex_digit((b / 16) as int),
        ).push(hex_digit((b % 16) as int)));
        assert(s@ =~= start + hex_text(bytes@).take(2 * i));
    }
    assert(hex_text(bytes@).take(2 * i) =~= hex_text(bytes@));
}

/// The lower-case form of a string, as [`str::to_lowercase`] computes it.
pub uninterp spec fn lowercase(s: Seq<char>) -> Seq<char>;

/// Lower-cases a string with [`str::to_lowercase`]. Its result depends on the
/// characters alone (the Unicode lower-case mapping), and is named
/// [`lowercase`].
#[verifier::external_body]
pub(crate) fn to_lowercase(s: &str) -> (r: String)
    ensures
        r@ == lowercase(s@),
{
    s.to_lowercase()
}

/// Whether a character has the Unicode property `White_Space`.
pub open spec fn whitespace(c: char) -> bool {
    let n = c as u32;
    ||| 0x09 <= n <= 0x0d
    ||| n == 0x20
    ||| n == 0x85
    ||| n == 0xa0
    ||| n == 0x1680
    ||| 0x2000 <= n <= 0x200a
    ||| n == 0x2028
    ||| n == 0x2029
    ||| n == 0x202f
    ||| n == 0x205f
    ||| n == 0x3000
}

/// Whether a character has the Unicode property `White_Space`.
pub fn is_whitespace(c: char) -> (r: bool)
    ensures
        r == whitespace(c),
{
    let n: u32 = c as u32;
    (0x09 <= n && n <= 0x0d) || n == 0x20 || n == 0x85 || n == 0xa0 || n == 0x1680 || (0x2000 <= n
        && n <= 0x200a) || n == 0x2028 || n == 0x2029 || n == 0x202f || n == 0x205f || n == 0x3000
}

/// The characters of a string.
pub fn to_chars(s: &str) -> (r: Vec<char>)
    ensures
        r@ == s@,
{
    broadcast use vstd::string::axiom_spec_iter;

    let mut out: Vec<char> = Vec::new();
    for c in it: s.chars()
        invariant
            it.seq() == s@,
            out@ == s@.take(it.index() as int),
    {
        out.push(c);
        assert(s@.take(it.index() + 1) =~= s@.take(it.index() as int).push(c));
    }
    assert(s@.take(s@.len() as int) =~= s@);
    out
}

/// The number that decimal digits stand for.
pub open spec fn decimal_value(s: Seq<char>) -> int
    decreases s.len(),
{
    if s.len() == 0 {
        0
    } else {
        decimal_value(s.drop_last()) * 10 + (s.last() as int - '0' as int)
    }
}

/// A number is written in decimal digits that stand for it, without a leading zero.
pub proof fn decimals_stand_for_their_number(n: nat)
    ensures
        decimal_value(decimal_text(n)) == n,
        decimal_text(n).len() > 0,
        forall|i: int|
            0 <= i < decimal_text(n).len() ==> '0' <= #[trigger] decimal_text(n)[i] <= '9',
        n > 0 ==> decimal_text(n)[0] != '0',
    decreases n,
{
    let s = decimal_text(n);
    if n < 10 {
        assert(s.drop_last() =~= Seq::empty());
        assert(decimal_value(s.drop_last()) == 0);
        assert(s.last() as int == '0' as int + n);
    } else {
        let t = decimal_text(n / 10);
        decimals_stand_for_their_number(n / 10);
        assert(s.drop_last() =~= t);
        assert(s.last() as int == '0' as int + n % 10);
        assert forall|i: int| 0 <= i < s.len() implies '0' <= #[trigger] s[i] <= '9' by {
            if i < t.len() {
                assert(s[i] == t[i]);
            }
        }
        assert(s[0] == t[0]);
    }
}

/// A byte is written as two digits out of `0123456789abcdef`, the higher half first.
pub proof fn bytes_are_written_in_hexadecimal(bytes: Seq<u8>, i: int)
    requires
        0 <= i < bytes.len(),
    ensures
        hex_text(bytes).len() == 2 * bytes.len(),
        hex_text(bytes)[2 * i] == "0123456789abcdef"@[(bytes[i] / 16) as int],
        hex_text(bytes)[2 * i + 1] == "0123456789abcdef"@[(bytes[i] % 16) as int],
{
    reveal_strlit("0123456789abcdef");
    let hi = (bytes[i] / 16) as int;
    let lo = (bytes[i] % 16) as int;
    assert((2 * i) / 2 == i && (2 * i + 1) / 2 == i);
    lemma_hex_digit(hi);
    lemma_hex_digit(lo);
}

proof fn lemma_hex_digit(d: int)
    requires
        0 <= d < 16,
    ensures
        hex_digit(d) == "0123456789abcdef"@[d],
        is_hex(hex_digit(d)),
{
    reveal_strlit("0123456789abcdef");
}

/// A character is a hexadecimal digit exactly where it is one of
/// `0123456789abcdef`.
pub proof fn hexadecimal_digits_are_sixteen(c: char)
    ensures
        is_hex(c) == "0123456789abcdef"@.contains(c),
{
    reveal_strlit("0123456789abcdef");
    let all = "0123456789abcdef"@;
    if is_hex(c) {
        let d = if c <= '9' {
            c as int - '0' as int
        } else {
            c as int - 'a' as int + 10
        };
        assert(all[d] == c);
    }
}

/// Texts are ordered as byte strings are in a dictionary: a text comes no later than
/// another exactly where it begins the other, or where its encoding is smaller at the
/// first place at which the two differ.
pub proof fn texts_are_ordered_as_in_a_dictionary(a: Seq<char>, b: Seq<char>)
    ensures
        text_le(a, b) == dictionary_le(vstd::utf8::encode_utf8(a), vstd::utf8::encode_utf8(b)),
{
    lemma_dictionary(encode_utf8(a), encode_utf8(b));
}

/// Whether bytes come no later than others in a dictionary.
pub open spec fn dictionary_le(a: Seq<u8>, b: Seq<u8>) -> bool {
    exists|k: int|
        0 <= k <= a.len() && k <= b.len() && #[trigger] a.take(k) == b.take(k) && (k == a.len() || (
        k < b.len() && a[k] < b[k]))
}

proof fn lemma_dictionary(a: Seq<u8>, b: Seq<u8>)
    ensures
        bytes_le(a, b) == dictionary_le(a, b),
    decreases a.len(),
{
    if a.len() == 0 {
        assert(a.take(0) =~= b.take(0));
    } else if b.len() == 0 {
        assert forall|k: int|
            0 <= k <= a.len() && k <= b.len() && #[trigger] a.take(k) == b.take(k) implies !(k
            == a.len() || (k < b.len() && a[k] < b[k])) by {}
    } else if a[0] != b[0] {
        if a[0] < b[0] {
            assert(a.take(0) =~= b.take(0));
        } else {
            assert forall|k: int|
                0 <= k <= a.len() && k <= b.len() && #[trigger] a.take(k) == b.take(k) implies !(k
                == a.len() || (k < b.len() && a[k] < b[k])) by {
                if k > 0 {
                    assert(a.take(k)[0] == a[0] && b.take(k)[0] == b[0]);
                }
            }
        }
    } else {
        let x = a.drop_first();
        let y = b.drop_first();
        lemma_dictionary(x, y);
        if dictionary_le(x, y) {
            let k = choose|k: int|
                0 <= k <= x.len() && k <= y.len() && #[trigger] x.take(k) == y.take(k) && (k
                    == x.len() || (k < y.len() && x[k] < y[k]));
            assert(a.take(k + 1) =~= b.take(k + 1)) by {
                assert forall|i: int| 0 <= i < k + 1 implies a[i] == b[i] by {
                    if i > 0 {
                        assert(x.take(k)[i - 1] == y.take(k)[i - 1]);
                    }
                }
            }
        }
        if dictionary_le(a, b) {
            let k = choose|k: int|
                0 <= k <= a.len() && k <= b.len() && #[trigger] a.take(k) == b.take(k) && (k
                    == a.len() || (k < b.len() && a[k] < b[k]));
            assert(k > 0);
            assert(x.take(k - 1) =~= y.take(k - 1)) by {
                assert forall|i: int| 0 <= i < k - 1 implies x[i] == y[i] by {
                    assert(a.take(k)[i + 1] == b.take(k)[i + 1]);
                }
            }
        }
    }
}

/// A list of a set in ascending order has each item of the set once, and each comes
/// no later than the next.
pub proof fn a_sorted_set_is_complete(s: Seq<Seq<char>>, set: Set<Seq<char>>, x: Seq<char>)
    requires
        sorted_set(s, set),
    ensures
        s.contains(x) == set.contains(x),
        forall|i: int, j: int| 0 <= i < j < s.len() ==> #[trigger] s[i] != #[trigger] s[j],
        forall|i: int, j: int|
            0 <= i <= j < s.len() ==> text_le(#[trigger] s[i], #[trigger] s[j]),
{
    assert(s.to_set().contains(x) == set.contains(x));
}

/// A list shows its items in their places, and an optional text shows what it has.
pub proof fn contents_are_shown_in_place<T: View>(items: Seq<T>, i: int, o: Option<String>)
    requires
        0 <= i < items.len(),
    ensures
        views(items).len() == items.len(),
        views(items)[i] == items[i]@,
        opt_view(o) is Some == o is Some,
        o matches Some(t) ==> opt_view(o) == Some(t@),
{
}

} // verus!
