//! Reading the Contents API's answer for a notebook: a JSON object whose
//! `content` member is the notebook in nbformat v4.

use vstd::prelude::*;

verus! {

#[verifier::external_type_specification]
#[verifier::external_body]
pub struct ExNotebook(nbformat::v4::Notebook);

/// What serde_json makes of an answer: `None` where `text` is not JSON;
/// otherwise the JSON text of its `content` member (as `serde_json::Value`
/// writes it), or `None` where there is no such member.
pub uninterp spec fn answer_content(text: Seq<char>) -> Option<Option<Seq<char>>>;

/// The notebook that serde_json reads from `content`
/// (`serde_json::from_str::<nbformat::v4::Notebook>`), or `None` where it
/// reads none.
pub uninterp spec fn notebook_of(content: Seq<char>) -> Option<nbformat::v4::Notebook>;

/// Whether serde_json reads `content` as an `nbformat::v4::Notebook`.
pub open spec fn notebook_reads(content: Seq<char>) -> bool {
    notebook_of(content) is Some
}

/// Reads `text` with `serde_json::from_str::<serde_json::Value>`, takes its
/// `content` member with `Value::get` and writes that member back as text
/// (`Value`'s `Display`). The contract claims that the result is what
/// `answer_content` names.
#[verifier::external_body]
pub fn content_member(text: &str) -> (r: Option<Option<String>>)
    ensures
        match answer_content(text@) {
            None => r is None,
            Some(None) => r matches Some(None),
            Some(Some(c)) => r matches Some(Some(t)) && t@ == c,
        },
{
    match serde_json::from_str::<serde_json::Value>(text) {
        Ok(body) => Some(body.get("content").map(|c| c.to_string())),
        Err(_) => None,
    }
}

/// Reads `content` with `serde_json::from_str::<nbformat::v4::Notebook>`.
/// The contract claims that the result is the notebook that `notebook_of`
/// names: the same text always reads as the same notebook.
#[verifier::external_body]
pub fn read_notebook(content: &str) -> (r: Option<nbformat::v4::Notebook>)
    ensures
        r == notebook_of(content@),
        r is Some <==> notebook_reads(content@),
{
    serde_json::from_str::<nbformat::v4::Notebook>(content).ok()
}

/// `Clone` of `nbformat::v4::Notebook` is derived: the copy has every field
/// of the original.
pub assume_specification[ <nbformat::v4::Notebook as Clone>::clone ](n: &nbformat::v4::Notebook) -> (r: nbformat::v4::Notebook)
    ensures
        r == *n,
;

/// Why an answer of the Contents API gave no notebook.
#[derive(Debug, Clone, Copy, PartialEq, Eq)]
pub enum NotebookAnswerError {
    /// The answer is not JSON.
    NotJson,
    /// The answer has no `content` member.
    MissingContent,
    /// The `content` member is not an nbformat v4 notebook.
    NotNotebook,
}

/// The notebook in an answer of the Contents API: exactly the notebook that
/// its `content` member reads as, in nbformat v4.
pub fn read_notebook_answer(text: &str) -> (r: Result<nbformat::v4::Notebook, NotebookAnswerError>)
    ensures
        match answer_content(text@) {
            None => r == Err::<nbformat::v4::Notebook, NotebookAnswerError>(NotebookAnswerError::NotJson),
            Some(None) => r == Err::<nbformat::v4::Notebook, NotebookAnswerError>(
                NotebookAnswerError::MissingContent,
            ),
            Some(Some(c)) => match notebook_of(c) {
                Some(n) => r == Ok::<nbformat::v4::Notebook, NotebookAnswerError>(n),
                None => r == Err::<nbformat::v4::Notebook, NotebookAnswerError>(
                    NotebookAnswerError::NotNotebook,
                ),
            },
        },
        r is Ok <==> (answer_content(text@) matches Some(Some(c)) && notebook_reads(c)),
{
    match content_member(text) {
        None => Err(NotebookAnswerError::NotJson),
        Some(None) => Err(NotebookAnswerError::MissingContent),
        Some(Some(content)) => match read_notebook(content.as_str()) {
            Some(nb) => Ok(nb),
            None => Err(NotebookAnswerError::NotNotebook),
        },
    }
}


} // verus!
