//! One raw log line and the classification rules over its text.
//!
//! A line is relevant when it carries the server-error level marker and none
//! of the ignorable client-error markers. A correlation id is the 36-character
//! span behind the first `reqId":"` key, or, when that key is absent, behind
//! the first `request_id=` key. An error message is the span between the
//! first `message":"` key and the next `","stack` delimiter behind it; a
//! message that itself contains the delimiter is truncated at it, an accepted
//! limitation of textual extraction.

use crate::scan::contains_pat;
use crate::scan::contains_sub;
use crate::scan::find_sub;
use crate::scan::first_at;
use crate::scan::lemma_spec_find_characterizes;
use crate::scan::lemma_spec_find_some;
use crate::scan::spec_find;
use vstd::prelude::*;
use vstd::string::StrSliceExecFns;

verus! {

/// The key announcing a correlation id in JSON-style records.
pub open spec fn req_id_key() -> Seq<char> {
    "reqId\":\""@
}

/// The key announcing a correlation id in key-value records.
pub open spec fn request_id_key() -> Seq<char> {
    "request_id="@
}

/// The key announcing an error message.
pub open spec fn message_key() -> Seq<char> {
    "message\":\""@
}

/// The delimiter ending an error message, right before the stack field.
pub open spec fn stack_delim() -> Seq<char> {
    "\",\"stack"@
}

/// The server-error severity marker.
pub open spec fn level_marker() -> Seq<char> {
    "level\":50"@
}

pub open spec fn ignorable_error_status_400() -> Seq<char> {
    "\"errorStatus\":400,"@
}

pub open spec fn ignorable_error_status_401() -> Seq<char> {
    "\"errorStatus\":401,"@
}

pub open spec fn ignorable_error_status_404() -> Seq<char> {
    "\"errorStatus\":404,"@
}

pub open spec fn ignorable_status_code_401() -> Seq<char> {
    "\"statusCode\":401,"@
}

pub open spec fn ignorable_status_code_402() -> Seq<char> {
    "\"statusCode\":402,"@
}

/// The line carries at least one marker of the ignorable allow-list.
pub open spec fn spec_has_ignorable(t: Seq<char>) -> bool {
    contains_pat(t, ignorable_error_status_400()) || contains_pat(
        t,
        ignorable_error_status_401(),
    ) || contains_pat(t, ignorable_error_status_404()) || contains_pat(
        t,
        ignorable_status_code_401(),
    ) || contains_pat(t, ignorable_status_code_402())
}

/// The line signals a server error that is not on the ignorable allow-list.
pub open spec fn spec_is_relevant(t: Seq<char>) -> bool {
    contains_pat(t, level_marker()) && !spec_has_ignorable(t)
}

/// The 36 characters behind the first occurrence of `key`, if they fit.
pub open spec fn spec_id_after(t: Seq<char>, key: Seq<char>) -> Option<Seq<char>> {
    match spec_find(t, key) {
        Some(i) => {
            let start = i + key.len();
            if start + 36 <= t.len() {
                Some(t.subrange(start, start + 36))
            } else {
                None
            }
        },
        None => None,
    }
}

/// The correlation id of a line: the `reqId":"` convention wins over the
/// `request_id=` convention, and only the first occurrence of a key counts.
pub open spec fn spec_get_id(t: Seq<char>) -> Option<Seq<char>> {
    if contains_pat(t, req_id_key()) {
        spec_id_after(t, req_id_key())
    } else if contains_pat(t, request_id_key()) {
        spec_id_after(t, request_id_key())
    } else {
        None
    }
}

/// The error message of a line: the span between the first `message":"` key
/// and the first `","stack` delimiter behind it.
pub open spec fn spec_get_error_message(t: Seq<char>) -> Option<Seq<char>> {
    match spec_find(t, message_key()) {
        Some(i) => {
            let rest = t.subrange(i + message_key().len(), t.len() as int);
            match spec_find(rest, stack_delim()) {
                Some(j) => Some(rest.subrange(0, j)),
                None => None,
            }
        },
        None => None,
    }
}

/// An immutable wrapper over one line of raw log text.
pub struct Line {
    line: String,
}

impl View for Line {
    type V = Seq<char>;

    closed spec fn view(&self) -> Seq<char> {
        self.line@
    }
}

impl DeepView for Line {
    type V = Seq<char>;

    open spec fn deep_view(&self) -> Seq<char> {
        self.view()
    }
}

impl Line {
    pub fn new(line: &str) -> (r: Line)
        ensures
            r@ == line@,
    {
        let line = line.to_owned();
        Line { line }
    }

    /// The raw text of the line.
    pub fn text(&self) -> (r: &str)
        ensures
            r@ == self@,
    {
        self.line.as_str()
    }

    /// The correlation id carried by the line, if any.
    pub fn get_id<'a>(&'a self) -> (r: Option<&'a str>)
        ensures
            match r {
                Some(id) => spec_get_id(self@) == Some(id@),
                None => spec_get_id(self@) is None,
            },
    {
        let text: &str = self.line.as_str();
        let n: usize = text.unicode_len();
        if let Some(i) = find_sub(text, "reqId\":\"") {
            let klen: usize = "reqId\":\"".unicode_len();
            let start: usize = i + klen;
            if n - start >= 36 {
                let id = text.substring_char(start, start + 36);
                return Some(id);
            }
            return None;
        }
        if let Some(i) = find_sub(text, "request_id=") {
            let klen: usize = "request_id=".unicode_len();
            let start: usize = i + klen;
            if n - start >= 36 {
                let id = text.substring_char(start, start + 36);
                return Some(id);
            }
            return None;
        }
        None
    }

    /// The error message carried by the line, if any.
    pub fn get_error_message<'a>(&'a self) -> (r: Option<&'a str>)
        ensures
            match r {
                Some(m) => spec_get_error_message(self@) == Some(m@),
                None => spec_get_error_message(self@) is None,
            },
    {
        let text: &str = self.line.as_str();
        let n: usize = text.unicode_len();
        if let Some(i) = find_sub(text, "message\":\"") {
            let klen: usize = "message\":\"".unicode_len();
            let rest = text.substring_char(i + klen, n);
            if let Some(j) = find_sub(rest, "\",\"stack") {
                let msg = rest.substring_char(0, j);
                return Some(msg);
            }
            return None;
        }
        None
    }

    /// Whether the line is a server error outside the ignorable allow-list.
    pub fn is_relevant(&self) -> (r: bool)
        ensures
            r == spec_is_relevant(self@),
    {
        let text: &str = self.line.as_str();
        if !contains_sub(text, "level\":50") {
            return false;
        }
        if contains_sub(text, "\"errorStatus\":400,") {
            return false;
        }
        if contains_sub(text, "\"errorStatus\":401,") {
            return false;
        }
        if contains_sub(text, "\"errorStatus\":404,") {
            return false;
        }
        if contains_sub(text, "\"statusCode\":401,") {
            return false;
        }
        if contains_sub(text, "\"statusCode\":402,") {
            return false;
        }
        true
    }
}

/// A line without the server-error marker is never relevant, whatever else
/// it contains.
pub proof fn lemma_no_marker_not_relevant(t: Seq<char>)
    requires
        !contains_pat(t, level_marker()),
    ensures
        !spec_is_relevant(t),
{
}

/// An ignorable marker suppresses relevance even beside the severity marker.
pub proof fn lemma_ignorable_not_relevant(t: Seq<char>)
    requires
        spec_has_ignorable(t),
    ensures
        !spec_is_relevant(t),
{
}

/// The severity marker without any ignorable marker makes the line relevant.
pub proof fn lemma_marker_without_ignorable_relevant(t: Seq<char>)
    requires
        contains_pat(t, level_marker()),
        !spec_has_ignorable(t),
    ensures
        spec_is_relevant(t),
{
}

/// An extracted correlation id always has exactly 36 characters; in
/// particular it is never empty.
pub proof fn lemma_extracted_id_length(t: Seq<char>)
    ensures
        spec_get_id(t) matches Some(id) ==> id.len() == 36,
{
    lemma_spec_find_characterizes(t, req_id_key());
    lemma_spec_find_characterizes(t, request_id_key());
}

/// A line whose first `reqId":"` key is followed by at least 36 characters
/// yields exactly those 36 characters as its id.
pub proof fn lemma_id_from_req_id_key(t: Seq<char>, i: int)
    requires
        first_at(t, req_id_key(), i),
        i + req_id_key().len() + 36 <= t.len(),
    ensures
        spec_get_id(t) == Some(t.subrange(i + req_id_key().len(), i + req_id_key().len() + 36)),
{
    lemma_spec_find_some(t, req_id_key(), i);
}

/// A line without the `reqId":"` key whose first `request_id=` key is
/// followed by at least 36 characters yields exactly those 36 characters.
pub proof fn lemma_id_from_request_id_key(t: Seq<char>, i: int)
    requires
        !contains_pat(t, req_id_key()),
        first_at(t, request_id_key(), i),
        i + request_id_key().len() + 36 <= t.len(),
    ensures
        spec_get_id(t) == Some(
            t.subrange(i + request_id_key().len(), i + request_id_key().len() + 36),
        ),
{
    lemma_spec_find_some(t, request_id_key(), i);
}

/// The error message is the span between the first `message":"` key and the
/// first `","stack` delimiter behind it.
pub proof fn lemma_message_between_key_and_stack(t: Seq<char>, i: int, j: int)
    requires
        first_at(t, message_key(), i),
        first_at(t.subrange(i + message_key().len(), t.len() as int), stack_delim(), j),
    ensures
        spec_get_error_message(t) == Some(
            t.subrange(i + message_key().len(), i + message_key().len() + j),
        ),
{
    lemma_spec_find_some(t, message_key(), i);
    let rest = t.subrange(i + message_key().len(), t.len() as int);
    lemma_spec_find_some(rest, stack_delim(), j);
    assert(rest.subrange(0, j) =~= t.subrange(
        i + message_key().len(),
        i + message_key().len() + j,
    ));
}

} // verus!
