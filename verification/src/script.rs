//! What the scripted stages share: where a stage's code comes from.
//!
//! A scripted stage runs code that its parameters either hold
//! (`code_contents`) or point to (`file`). Running an interpreter is not
//! done here.

use vstd::prelude::*;
use crate::params::ParamMap;
use crate::stage::StageHandle;
use crate::text;

verus! {

/// Parameter that names the file which holds a stage's code.
pub const FILE_PARAM: &'static str = "file";

/// Parameter that holds a stage's code.
pub const CODE_PARAM: &'static str = "code_contents";

/// Where a stage's code comes from.
#[derive(Debug)]
pub enum CodeSource {
    /// The code is the content of the file with this path.
    File(String),
    /// The code is this text.
    Inline(String),
}

/// Mathematical content of a [`CodeSource`].
pub enum CodeSourceView {
    File(Seq<char>),
    Inline(Seq<char>),
}

impl View for CodeSource {
    type V = CodeSourceView;

    open spec fn view(&self) -> CodeSourceView {
        match *self {
            CodeSource::File(path) => CodeSourceView::File(path@),
            CodeSource::Inline(code) => CodeSourceView::Inline(code@),
        }
    }
}

/// Why a scripted stage cannot be started.
#[derive(Clone, Copy, Debug, PartialEq, Eq, Structural)]
pub enum ScriptError {
    /// The parameters hold neither `file` nor `code_contents`.
    CodeMissing,
}

/// Where the code of a stage with the parameters `params` comes from: the
/// file that `file` names; without `file`, the text of `code_contents`.
pub open spec fn spec_code_source(params: Map<Seq<char>, Seq<char>>) -> Result<
    CodeSourceView,
    ScriptError,
> {
    if params.contains_key(FILE_PARAM@) {
        Ok(CodeSourceView::File(params[FILE_PARAM@]))
    } else if params.contains_key(CODE_PARAM@) {
        Ok(CodeSourceView::Inline(params[CODE_PARAM@]))
    } else {
        Err(ScriptError::CodeMissing)
    }
}

/// Where the code of a stage with the parameters `params` comes from.
pub fn code_source(params: &ParamMap) -> (outcome: Result<CodeSource, ScriptError>)
    ensures
        match outcome {
            Ok(source) => spec_code_source(params@) == Ok::<CodeSourceView, ScriptError>(source@),
            Err(e) => spec_code_source(params@) == Err::<CodeSourceView, ScriptError>(e),
        },
{
    match params.get(FILE_PARAM) {
        Some(path) => Ok(CodeSource::File(path.clone())),
        None => match params.get(CODE_PARAM) {
            Some(code) => Ok(CodeSource::Inline(code.clone())),
            None => Err(ScriptError::CodeMissing),
        },
    }
}

/// What the report of a stage that cannot start for want of code says
/// behind the stage's handle.
pub open spec fn code_missing_text(language: Seq<char>) -> Seq<char> {
    "': either 'file' or 'code_contents' attribute must be provided for "@ + language
        + " handler"@
}

/// What the stage `handle` of the language `language` reports when its
/// parameters hold no code: a sentence that names the stage's handle.
pub fn code_missing_message(handle: StageHandle, language: &str) -> (message: String)
    ensures
        message@ == "Step '"@ + text::spec_decimal(handle as nat) + code_missing_text(language@),
        text::spec_contains(message@, text::spec_decimal(handle as nat)),
{
    let mut message = "Step '".to_owned();
    text::push_decimal(&mut message, handle as u64);
    text::push_text(
        &mut message,
        "': either 'file' or 'code_contents' attribute must be provided for ",
    );
    text::push_text(&mut message, language);
    text::push_text(&mut message, " handler");
    proof {
        text::lemma_contains_inner(
            "Step '"@,
            text::spec_decimal(handle as nat),
            code_missing_text(language@),
        );
        assert(message@ =~= "Step '"@ + text::spec_decimal(handle as nat) + code_missing_text(
            language@,
        ));
    }
    message
}

/// What the report of a stage whose code file cannot be read says behind
/// the stage's handle.
pub open spec fn file_unreadable_text(language: Seq<char>, path: Seq<char>, detail: Seq<char>) -> Seq<
    char,
> {
    "': failed to read contents of "@ + language + " file '"@ + path + "': "@ + detail
}

/// What the stage `handle` of the language `language` reports when the file
/// `path` that holds its code cannot be read: a sentence that names the
/// stage's handle and the file, then the reason in `detail`.
pub fn file_unreadable_message(handle: StageHandle, language: &str, path: &str, detail: &str) -> (message:
    String)
    ensures
        message@ == "Step '"@ + text::spec_decimal(handle as nat) + file_unreadable_text(
            language@,
            path@,
            detail@,
        ),
        text::spec_contains(message@, text::spec_decimal(handle as nat)),
{
    let mut message = "Step '".to_owned();
    text::push_decimal(&mut message, handle as u64);
    text::push_text(&mut message, "': failed to read contents of ");
    text::push_text(&mut message, language);
    text::push_text(&mut message, " file '");
    text::push_text(&mut message, path);
    text::push_text(&mut message, "': ");
    text::push_text(&mut message, detail);
    proof {
        text::lemma_contains_inner(
            "Step '"@,
            text::spec_decimal(handle as nat),
            file_unreadable_text(language@, path@, detail@),
        );
        assert(message@ =~= "Step '"@ + text::spec_decimal(handle as nat) + file_unreadable_text(
            language@,
            path@,
            detail@,
        ));
    }
    message
}

} // verus!
