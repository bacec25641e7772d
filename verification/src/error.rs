//! Errors of the model bridge and of the configuration.

use vstd::prelude::*;
use vstd::string::*;

use crate::text;

verus! {

/// Why a model could not be loaded, or a batch could not be run.
#[derive(Debug)]
pub enum BridgeError {
    ModelLoadFailed(String),
    ModelNotBatchable,
    UnsupportedDtype { dtype: String },
    UnsupportedInputType { description: String },
    InputSizeMismatch { expected: usize, actual: usize },
    RunFailed(String),
    OutputCopyFailed(String),
    DispatchPanic(String),
}

/// The mathematical value of a [`BridgeError`].
pub ghost enum BridgeErrorView {
    ModelLoadFailed(Seq<char>),
    ModelNotBatchable,
    UnsupportedDtype { dtype: Seq<char> },
    UnsupportedInputType { description: Seq<char> },
    InputSizeMismatch { expected: nat, actual: nat },
    RunFailed(Seq<char>),
    OutputCopyFailed(Seq<char>),
    DispatchPanic(Seq<char>),
}

impl View for BridgeError {
    type V = BridgeErrorView;

    open spec fn view(&self) -> BridgeErrorView {
        match self {
            BridgeError::ModelLoadFailed(text) => BridgeErrorView::ModelLoadFailed(text@),
            BridgeError::ModelNotBatchable => BridgeErrorView::ModelNotBatchable,
            BridgeError::UnsupportedDtype { dtype } => BridgeErrorView::UnsupportedDtype {
                dtype: dtype@,
            },
            BridgeError::UnsupportedInputType { description } =>
                BridgeErrorView::UnsupportedInputType { description: description@ },
            BridgeError::InputSizeMismatch { expected, actual } =>
                BridgeErrorView::InputSizeMismatch {
                expected: *expected as nat,
                actual: *actual as nat,
            },
            BridgeError::RunFailed(text) => BridgeErrorView::RunFailed(text@),
            BridgeError::OutputCopyFailed(text) => BridgeErrorView::OutputCopyFailed(text@),
            BridgeError::DispatchPanic(text) => BridgeErrorView::DispatchPanic(text@),
        }
    }
}

impl BridgeErrorView {
    /// The text shown to users for this error.
    pub open spec fn message(self) -> Seq<char> {
        match self {
            BridgeErrorView::ModelLoadFailed(text) => "model load failed: "@ + text,
            BridgeErrorView::ModelNotBatchable =>
                "model has static batch dimension; engine requires dynamic"@,
            BridgeErrorView::UnsupportedDtype { dtype } => "unsupported tensor dtype in v1: "@
                + dtype + " (v1 supports F32 only; I64/F16 planned for v1.1)"@,
            BridgeErrorView::UnsupportedInputType { description } =>
                "unsupported input value type: "@ + description,
            BridgeErrorView::InputSizeMismatch { expected, actual } =>
                "input size mismatch: expected "@ + text::decimal(expected) + " bytes, got "@
                    + text::decimal(actual),
            BridgeErrorView::RunFailed(text) => "ort::Session::run failed: "@ + text,
            BridgeErrorView::OutputCopyFailed(text) => "output copy failed: "@ + text,
            BridgeErrorView::DispatchPanic(text) => "dispatch task panicked: "@ + text,
        }
    }
}

impl BridgeError {
    /// The text shown to users for this error.
    pub fn message(&self) -> (message: String)
        ensures
            message@ == self@.message(),
    {
        match self {
            BridgeError::ModelLoadFailed(text) => text::joined("model load failed: ", text),
            BridgeError::ModelNotBatchable => {
                "model has static batch dimension; engine requires dynamic".to_string()
            },
            BridgeError::UnsupportedDtype { dtype } => {
                let mut out = text::joined("unsupported tensor dtype in v1: ", dtype);
                out.append(" (v1 supports F32 only; I64/F16 planned for v1.1)");
                out
            },
            BridgeError::UnsupportedInputType { description } => text::joined(
                "unsupported input value type: ",
                description,
            ),
            BridgeError::InputSizeMismatch { expected, actual } => {
                let mut out = "input size mismatch: expected ".to_string();
                text::append_decimal(&mut out, *expected as u64);
                out.append(" bytes, got ");
                text::append_decimal(&mut out, *actual as u64);
                out
            },
            BridgeError::RunFailed(text) => text::joined("ort::Session::run failed: ", text),
            BridgeError::OutputCopyFailed(text) => text::joined("output copy failed: ", text),
            BridgeError::DispatchPanic(text) => text::joined("dispatch task panicked: ", text),
        }
    }
}

/// Why a configuration was not taken into use.
#[derive(Debug)]
pub enum ConfigError {
    Parse(String),
    Validation(String),
    ModelLoad(BridgeError),
}

/// The mathematical value of a [`ConfigError`].
pub ghost enum ConfigErrorView {
    Parse(Seq<char>),
    Validation(Seq<char>),
    ModelLoad(BridgeErrorView),
}

impl View for ConfigError {
    type V = ConfigErrorView;

    open spec fn view(&self) -> ConfigErrorView {
        match self {
            ConfigError::Parse(text) => ConfigErrorView::Parse(text@),
            ConfigError::Validation(text) => ConfigErrorView::Validation(text@),
            ConfigError::ModelLoad(error) => ConfigErrorView::ModelLoad(error@),
        }
    }
}

impl ConfigErrorView {
    /// The text shown to users for this error.
    pub open spec fn message(self) -> Seq<char> {
        match self {
            ConfigErrorView::Parse(text) => "parse error: "@ + text,
            ConfigErrorView::Validation(text) => "validation error: "@ + text,
            ConfigErrorView::ModelLoad(error) => "model load failed: "@ + error.message(),
        }
    }
}

impl ConfigError {
    /// The error of a configuration file that could not be read; `text` says why.
    pub fn unreadable(path: &str, text: &str) -> (error: ConfigError)
        ensures
            error@ == ConfigErrorView::Parse("read "@ + path@ + ": "@ + text@),
    {
        let mut message = text::joined("read ", path);
        message.append(": ");
        message.append(text);
        ConfigError::Parse(message)
    }

    /// The text shown to users for this error.
    pub fn message(&self) -> (message: String)
        ensures
            message@ == self@.message(),
    {
        match self {
            ConfigError::Parse(text) => text::joined("parse error: ", text),
            ConfigError::Validation(text) => text::joined("validation error: ", text),
            ConfigError::ModelLoad(error) => {
                let inner = error.message();
                text::joined("model load failed: ", &inner)
            },
        }
    }
}

impl From<BridgeError> for ConfigError {
    fn from(error: BridgeError) -> (wrapped: ConfigError) {
        ConfigError::ModelLoad(error)
    }
}

impl vstd::std_specs::convert::FromSpecImpl<BridgeError> for ConfigError {
    open spec fn obeys_from_spec() -> bool {
        true
    }

    open spec fn from_spec(error: BridgeError) -> ConfigError {
        ConfigError::ModelLoad(error)
    }
}

/// The text of each error of the bridge.
pub proof fn lemma_bridge_error_messages(text: Seq<char>, expected: nat, actual: nat)
    ensures
        BridgeErrorView::ModelLoadFailed(text).message() == "model load failed: "@ + text,
        BridgeErrorView::ModelNotBatchable.message()
            == "model has static batch dimension; engine requires dynamic"@,
        (BridgeErrorView::UnsupportedDtype { dtype: text }).message()
            == "unsupported tensor dtype in v1: "@ + text
            + " (v1 supports F32 only; I64/F16 planned for v1.1)"@,
        (BridgeErrorView::UnsupportedInputType { description: text }).message()
            == "unsupported input value type: "@ + text,
        (BridgeErrorView::InputSizeMismatch { expected, actual }).message()
            == "input size mismatch: expected "@ + text::decimal(expected) + " bytes, got "@
            + text::decimal(actual),
        BridgeErrorView::RunFailed(text).message() == "ort::Session::run failed: "@ + text,
        BridgeErrorView::OutputCopyFailed(text).message() == "output copy failed: "@ + text,
        BridgeErrorView::DispatchPanic(text).message() == "dispatch task panicked: "@ + text,
{
}

/// The text of each error of a configuration; that of a model that did not load ends in the text
/// of the bridge's error.
pub proof fn lemma_config_error_messages(text: Seq<char>, error: BridgeErrorView)
    ensures
        ConfigErrorView::Parse(text).message() == "parse error: "@ + text,
        ConfigErrorView::Validation(text).message() == "validation error: "@ + text,
        ConfigErrorView::ModelLoad(error).message() == "model load failed: "@ + error.message(),
{
}

/// The value of an error of the bridge is the value of what it carries.
pub proof fn lemma_value_of_a_bridge_error(text: String, expected: usize, actual: usize)
    ensures
        BridgeError::ModelLoadFailed(text)@ == BridgeErrorView::ModelLoadFailed(text@),
        BridgeError::ModelNotBatchable@ == BridgeErrorView::ModelNotBatchable,
        (BridgeError::UnsupportedDtype { dtype: text })@ == (BridgeErrorView::UnsupportedDtype {
            dtype: text@,
        }),
        (BridgeError::UnsupportedInputType { description: text })@ == (
        BridgeErrorView::UnsupportedInputType { description: text@ }),
        (BridgeError::InputSizeMismatch { expected, actual })@ == (
        BridgeErrorView::InputSizeMismatch { expected: expected as nat, actual: actual as nat }),
        BridgeError::RunFailed(text)@ == BridgeErrorView::RunFailed(text@),
        BridgeError::OutputCopyFailed(text)@ == BridgeErrorView::OutputCopyFailed(text@),
        BridgeError::DispatchPanic(text)@ == BridgeErrorView::DispatchPanic(text@),
{
}

/// The value of an error of a configuration is the value of what it carries.
pub proof fn lemma_value_of_a_config_error(text: String, error: BridgeError)
    ensures
        ConfigError::Parse(text)@ == ConfigErrorView::Parse(text@),
        ConfigError::Validation(text)@ == ConfigErrorView::Validation(text@),
        ConfigError::ModelLoad(error)@ == ConfigErrorView::ModelLoad(error@),
{
}

} // verus!
