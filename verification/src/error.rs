//! What a plugin can fail with, and what a pipeline can be denied for.

use crate::string_map::StringMap;
use crate::text;
use serde_json::Value;
use vstd::prelude::*;

verus! {

/// Why a request was denied.
#[derive(Debug)]
pub struct PluginViolation {
    /// Machine-readable code.
    pub code: String,
    /// Human-readable reason.
    pub reason: String,
    /// The plugin that decided, stamped by the executor.
    pub plugin_name: Option<String>,
}

/// The contents of a [`PluginViolation`].
pub struct ViolationView {
    pub code: Seq<char>,
    pub reason: Seq<char>,
    pub plugin_name: Option<Seq<char>>,
}

impl View for PluginViolation {
    type V = ViolationView;

    open spec fn view(&self) -> ViolationView {
        ViolationView {
            code: self.code@,
            reason: self.reason@,
            plugin_name: text::opt_view(self.plugin_name),
        }
    }
}

impl PluginViolation {
    /// A violation that names no plugin yet.
    pub fn new(code: &str, reason: &str) -> (r: Self)
        ensures
            r@ == (ViolationView { code: code@, reason: reason@, plugin_name: None }),
    {
        PluginViolation { code: code.to_owned(), reason: reason.to_owned(), plugin_name: None }
    }

    /// The same violation, stamped with the plugin that raised it.
    pub fn stamped(self, plugin_name: &str) -> (r: Self)
        ensures
            r@ == (ViolationView { plugin_name: Some(plugin_name@), ..self@ }),
    {
        PluginViolation {
            code: self.code,
            reason: self.reason,
            plugin_name: Some(plugin_name.to_owned()),
        }
    }
}

impl Clone for PluginViolation {
    fn clone(&self) -> (r: Self)
        ensures
            r@ == self@,
    {
        PluginViolation {
            code: self.code.clone(),
            reason: self.reason.clone(),
            plugin_name: text::own_opt(text::borrow_opt(&self.plugin_name)),
        }
    }
}

/// A failure of a plugin or of the framework around it.
#[derive(Debug)]
pub enum PluginError {
    /// A plugin failed while running.
    Execution {
        plugin_name: String,
        message: String,
        source: Option<String>,
        code: Option<String>,
        details: StringMap<Value>,
        proto_error_code: Option<i64>,
    },
    /// A plugin did not answer in time.
    Timeout { plugin_name: String, timeout_ms: u64, proto_error_code: Option<i64> },
    /// The configuration is not usable.
    Config { message: String },
}

/// The contents of a [`PluginError`].
pub enum ErrorView {
    Execution {
        plugin_name: Seq<char>,
        message: Seq<char>,
        source: Option<Seq<char>>,
        code: Option<Seq<char>>,
        details: Map<Seq<char>, Value>,
        proto_error_code: Option<i64>,
    },
    Timeout { plugin_name: Seq<char>, timeout_ms: u64, proto_error_code: Option<i64> },
    Config { message: Seq<char> },
}

impl View for PluginError {
    type V = ErrorView;

    open spec fn view(&self) -> ErrorView {
        match *self {
            PluginError::Execution {
                plugin_name,
                message,
                source,
                code,
                details,
                proto_error_code,
            } => ErrorView::Execution {
                plugin_name: plugin_name@,
                message: message@,
                source: text::opt_view(source),
                code: text::opt_view(code),
                details: details@,
                proto_error_code,
            },
            PluginError::Timeout { plugin_name, timeout_ms, proto_error_code } => ErrorView::Timeout {
                plugin_name: plugin_name@,
                timeout_ms,
                proto_error_code,
            },
            PluginError::Config { message } => ErrorView::Config { message: message@ },
        }
    }
}

/// The one-line rendering of an error.
pub open spec fn error_text(e: ErrorView) -> Seq<char> {
    match e {
        ErrorView::Execution { plugin_name, message, .. } => "plugin '"@ + plugin_name
            + "' execution failed: "@ + message,
        ErrorView::Timeout { plugin_name, timeout_ms, .. } => "plugin '"@ + plugin_name
            + "' timed out after "@ + text::decimal_text(timeout_ms as nat) + "ms"@,
        ErrorView::Config { message } => "configuration error: "@ + message,
    }
}

/// An execution failure with a code and nothing else attached.
pub open spec fn execution_error(
    plugin_name: Seq<char>,
    message: Seq<char>,
    source: Option<Seq<char>>,
    code: Option<Seq<char>>,
) -> ErrorView {
    ErrorView::Execution {
        plugin_name,
        message,
        source,
        code,
        details: Map::empty(),
        proto_error_code: None,
    }
}

/// The code that marks a contained panic.
pub open spec fn is_panic(e: ErrorView) -> bool {
    e matches ErrorView::Execution { code: Some(c), .. } && c == "panic"@
}

impl PluginError {
    /// An execution failure with a code and nothing else attached.
    pub fn execution(
        plugin_name: &str,
        message: String,
        source: Option<String>,
        code: Option<&str>,
    ) -> (r: Self)
        ensures
            r@ == execution_error(
                plugin_name@,
                message@,
                text::opt_view(source),
                text::opt_str_view(code),
            ),
    {
        PluginError::Execution {
            plugin_name: plugin_name.to_owned(),
            message,
            source,
            code: text::own_opt(code),
            details: StringMap::new(),
            proto_error_code: None,
        }
    }

    /// The error of a plugin that panicked, which keeps the panic's message.
    pub fn panicked(plugin_name: &str, message: &str) -> (r: Self)
        ensures
            r@ == execution_error(plugin_name@, "task panicked: "@ + message@, None, Some("panic"@)),
            is_panic(r@),
    {
        PluginError::execution(
            plugin_name,
            String::from_str("task panicked: ").concat(message),
            None,
            Some("panic"),
        )
    }

    /// The error of a plugin that ran out of time. The limit is given in
    /// seconds; the milliseconds wrap at 64 bits.
    pub fn timed_out(plugin_name: &str, timeout_seconds: u64) -> (r: Self)
        ensures
            r@ == timeout_error(plugin_name@, timeout_seconds),
    {
        PluginError::Timeout {
            plugin_name: plugin_name.to_owned(),
            timeout_ms: timeout_seconds.wrapping_mul(1000),
            proto_error_code: None,
        }
    }

    /// The one-line rendering of the error.
    pub fn text(&self) -> (r: String)
        ensures
            r@ == error_text(self@),
    {
        match self {
            PluginError::Execution { plugin_name, message, .. } => String::from_str(
                "plugin '",
            ).concat(plugin_name.as_str()).concat("' execution failed: ").concat(message.as_str()),
            PluginError::Timeout { plugin_name, timeout_ms, .. } => String::from_str(
                "plugin '",
            ).concat(plugin_name.as_str()).concat("' timed out after ").concat(
                text::decimal(*timeout_ms).as_str(),
            ).concat("ms"),
            PluginError::Config { message } => String::from_str("configuration error: ").concat(
                message.as_str(),
            ),
        }
    }

    /// Whether the error is a contained panic.
    pub fn is_panic(&self) -> (r: bool)
        ensures
            r == is_panic(self@),
    {
        match self {
            PluginError::Execution { code: Some(c), .. } => text::same(c.as_str(), "panic"),
            _ => false,
        }
    }
}

/// The error of a plugin that ran out of time.
pub open spec fn timeout_error(plugin_name: Seq<char>, timeout_seconds: u64) -> ErrorView {
    ErrorView::Timeout {
        plugin_name,
        timeout_ms: (timeout_seconds * 1000 % 0x1_0000_0000_0000_0000) as u64,
        proto_error_code: None,
    }
}

/// A plugin failure that did not halt the pipeline, as the caller gets to see it.
#[derive(Debug)]
pub struct PluginErrorRecord {
    /// The plugin that failed; empty when the failure names none.
    pub plugin_name: String,
    /// What went wrong.
    pub message: String,
    /// Machine-readable code.
    pub code: Option<String>,
    /// Protocol-level code.
    pub proto_error_code: Option<i64>,
}

/// The contents of a [`PluginErrorRecord`].
pub struct RecordView {
    pub plugin_name: Seq<char>,
    pub message: Seq<char>,
    pub code: Option<Seq<char>>,
    pub proto_error_code: Option<i64>,
}

impl View for PluginErrorRecord {
    type V = RecordView;

    open spec fn view(&self) -> RecordView {
        RecordView {
            plugin_name: self.plugin_name@,
            message: self.message@,
            code: text::opt_view(self.code),
            proto_error_code: self.proto_error_code,
        }
    }
}

/// The record of an error.
pub open spec fn record_of(e: ErrorView) -> RecordView {
    match e {
        ErrorView::Execution { plugin_name, message, code, proto_error_code, .. } => RecordView {
            plugin_name,
            message,
            code,
            proto_error_code,
        },
        ErrorView::Timeout { plugin_name, proto_error_code, .. } => RecordView {
            plugin_name,
            message: error_text(e),
            code: None,
            proto_error_code,
        },
        ErrorView::Config { .. } => RecordView {
            plugin_name: Seq::empty(),
            message: error_text(e),
            code: None,
            proto_error_code: None,
        },
    }
}

impl PluginErrorRecord {
    /// The record of an error.
    pub fn of(e: &PluginError) -> (r: Self)
        ensures
            r@ == record_of(e@),
    {
        match e {
            PluginError::Execution { plugin_name, message, code, proto_error_code, .. } => {
                PluginErrorRecord {
                    plugin_name: plugin_name.clone(),
                    message: message.clone(),
                    code: text::own_opt(text::borrow_opt(code)),
                    proto_error_code: *proto_error_code,
                }
            },
            PluginError::Timeout { plugin_name, proto_error_code, .. } => PluginErrorRecord {
                plugin_name: plugin_name.clone(),
                message: e.text(),
                code: None,
                proto_error_code: *proto_error_code,
            },
            PluginError::Config { .. } => PluginErrorRecord {
                plugin_name: String::new(),
                message: e.text(),
                code: None,
                proto_error_code: None,
            },
        }
    }
}

/// An error is rendered by its kind: with the plugin and what went wrong, with the
/// plugin and the limit in milliseconds, or with what is wrong in the configuration.
pub proof fn errors_are_rendered_by_kind(e: ErrorView)
    ensures
        match e {
            ErrorView::Execution { plugin_name, message, .. } => error_text(e) == "plugin '"@
                + plugin_name + "' execution failed: "@ + message,
            ErrorView::Timeout { plugin_name, timeout_ms, .. } => error_text(e) == "plugin '"@
                + plugin_name + "' timed out after "@ + text::decimal_text(timeout_ms as nat)
                + "ms"@,
            ErrorView::Config { message } => error_text(e) == "configuration error: "@ + message,
        },
{
}

/// The record of a failure names the plugin, where the failure does, and keeps its
/// codes. Its message is that of an execution failure, and the rendering of any
/// other.
pub proof fn records_keep_what_failed(e: ErrorView)
    ensures
        match e {
            ErrorView::Execution { plugin_name, message, code, proto_error_code, .. } => record_of(e)
                == (RecordView { plugin_name, message, code, proto_error_code }),
            ErrorView::Timeout { plugin_name, proto_error_code, .. } => record_of(e) == (
            RecordView { plugin_name, message: error_text(e), code: None, proto_error_code }),
            ErrorView::Config { .. } => record_of(e).plugin_name.len() == 0 && record_of(e).message
                == error_text(e) && record_of(e).code is None && record_of(
                e,
            ).proto_error_code is None,
        },
{
}

/// A failure is a contained panic exactly where it is an execution failure with the
/// code `panic`.
pub proof fn panics_are_told_by_their_code(e: ErrorView)
    ensures
        is_panic(e) == match e {
            ErrorView::Execution { code: Some(c), .. } => c == "panic"@,
            _ => false,
        },
{
}

/// Failures are made with what they are made of and nothing else attached.
pub proof fn failures_are_made_as_told(
    plugin_name: Seq<char>,
    message: Seq<char>,
    source: Option<Seq<char>>,
    code: Option<Seq<char>>,
    timeout_seconds: u64,
)
    ensures
        execution_error(plugin_name, message, source, code) == (ErrorView::Execution {
            plugin_name,
            message,
            source,
            code,
            details: Map::empty(),
            proto_error_code: None,
        }),
        timeout_seconds * 1000 <= u64::MAX ==> timeout_error(
            plugin_name,
            timeout_seconds,
        ) == (ErrorView::Timeout {
            plugin_name,
            timeout_ms: (timeout_seconds * 1000) as u64,
            proto_error_code: None,
        }),
        timeout_error(plugin_name, timeout_seconds) matches ErrorView::Timeout {
            plugin_name: n,
            timeout_ms,
            proto_error_code,
        } && n == plugin_name && timeout_ms == timeout_seconds * 1000 % 0x1_0000_0000_0000_0000
            && proto_error_code is None,
{
}

/// A violation shows its code, its reason and the plugin that raised it.
pub proof fn violations_show_their_fields(v: PluginViolation)
    ensures
        v@.code == v.code@,
        v@.reason == v.reason@,
        v@.plugin_name is Some == v.plugin_name is Some,
        v.plugin_name matches Some(n) ==> v@.plugin_name == Some(n@),
{
}

} // verus!
