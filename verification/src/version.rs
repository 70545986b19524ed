//! The update check: reading a release notice and deciding whether the
//! release is newer than the running version.

use vstd::prelude::*;
use vstd::string::*;
use crate::text::text_of;

verus! {

/// `text` without the `v`s at its start.
pub open spec fn strip_v(text: Seq<char>) -> Seq<char>
    decreases text.len(),
{
    if text.len() > 0 && text[0] == 'v' {
        strip_v(text.drop_first())
    } else {
        text
    }
}

/// `text` without the `v`s at its start.
pub fn trim_version(text: &str) -> (trimmed: String)
    ensures
        trimmed@ == strip_v(text@),
{
    let len: usize = text.unicode_len();
    let mut start: usize = 0;
    assert(text@.skip(0) =~= text@);
    while start < len && text.get_char(start) == 'v'
        invariant
            start <= len,
            len == text@.len(),
            strip_v(text@) == strip_v(text@.skip(start as int)),
        decreases len - start,
    {
        assert(text@.skip(start as int).drop_first() =~= text@.skip(start + 1));
        start += 1;
    }
    assert(text@.skip(start as int) =~= text@.subrange(start as int, len as int));
    text.substring_char(start, len).to_owned()
}

/// The place of the first `.` in `text`, or -1 where it has none.
pub open spec fn first_dot(text: Seq<char>) -> int
    decreases text.len(),
{
    if text.len() == 0 {
        -1
    } else if text[0] == '.' {
        0
    } else {
        let rest = first_dot(text.drop_first());
        if rest < 0 {
            -1
        } else {
            rest + 1
        }
    }
}

/// `first_dot` finds the first `.`, and says so when there is none.
pub proof fn lemma_first_dot(text: Seq<char>, at: int)
    requires
        0 <= at <= text.len(),
        forall|k: int| 0 <= k < at ==> text[k] != '.',
        at < text.len() ==> text[at] == '.',
    ensures
        first_dot(text) == (if at < text.len() {
            at
        } else {
            -1
        }),
    decreases text.len(),
{
    if text.len() > 0 && at > 0 {
        let rest = text.drop_first();
        assert forall|k: int| 0 <= k < at - 1 implies rest[k] != '.' by {
            assert(rest[k] == text[k + 1]);
        }
        lemma_first_dot(rest, at - 1);
    }
}

/// Whether `c` is one of the digits `0` to `9`.
pub open spec fn is_digit(c: char) -> bool {
    48 <= c as int <= 57
}

/// The number that a text of digits writes in base ten.
pub open spec fn decimal_value(digits: Seq<char>) -> nat
    decreases digits.len(),
{
    if digits.len() == 0 {
        0
    } else {
        (decimal_value(digits.drop_last()) * 10 + (digits.last() as int - 48)) as nat
    }
}

/// The number that `text` stands for as a `u32`: an optional `+`, then one or
/// more digits that write a number within range; nothing else.
pub open spec fn parsed_u32(text: Seq<char>) -> Option<u32> {
    let digits = if text.len() > 0 && text[0] == '+' {
        text.drop_first()
    } else {
        text
    };
    if digits.len() == 0 || !(forall|i: int| 0 <= i < digits.len() ==> is_digit(#[trigger] digits[i]))
        || decimal_value(digits) > u32::MAX {
        None
    } else {
        Some(decimal_value(digits) as u32)
    }
}

/// Calls `str::parse` for `u32`, which the standard library documents to
/// accept an optional `+` followed by decimal digits only, and to fail on an
/// empty text, on any other character and on a number out of range.
#[verifier::external_body]
fn parse_number(text: &str) -> (number: Option<u32>)
    ensures
        number == parsed_u32(text@),
{
    text.parse::<u32>().ok()
}

/// The number that one component of a version gives, if it is one.
pub open spec fn component_numbers(component: Seq<char>) -> Seq<u32> {
    match parsed_u32(component) {
        Some(number) => seq![number],
        None => Seq::empty(),
    }
}

/// The numbers of a dotted version: its components between the dots, each
/// read as a number, those that are no number left out.
pub open spec fn version_numbers(text: Seq<char>) -> Seq<u32>
    decreases text.len(),
{
    let dot = first_dot(text);
    if dot < 0 || dot >= text.len() {
        component_numbers(text)
    } else {
        component_numbers(text.take(dot)) + version_numbers(text.skip(dot + 1))
    }
}

/// The numbers of a dotted version, as `version_numbers` defines them.
pub fn version_parts(text: &str) -> (parts: Vec<u32>)
    ensures
        parts@ == version_numbers(text@),
{
    let len: usize = text.unicode_len();
    let mut parts: Vec<u32> = Vec::new();
    let mut from: usize = 0;
    let mut i: usize = 0;
    assert(text@.skip(0) =~= text@);
    while i < len
        invariant
            from <= i <= len,
            len == text@.len(),
            forall|k: int| from <= k < i ==> text@[k] != '.',
            version_numbers(text@) == parts@ + version_numbers(text@.skip(from as int)),
        decreases len - i,
    {
        if text.get_char(i) == '.' {
            let component = text.substring_char(from, i);
            let number = parse_number(component);
            proof {
                let rest = text@.skip(from as int);
                lemma_first_dot(rest, i - from);
                assert(rest.take(i - from) =~= component@);
                assert(rest.skip(i - from + 1) =~= text@.skip(i + 1));
            }
            let ghost before = parts@;
            match number {
                Some(n) => {
                    parts.push(n);
                },
                None => {},
            }
            assert(parts@ =~= before + component_numbers(component@));
            assert(version_numbers(text@) =~= parts@ + version_numbers(text@.skip(i + 1)));
            from = i + 1;
        }
        i += 1;
    }
    let component = text.substring_char(from, len);
    let number = parse_number(component);
    proof {
        let rest = text@.skip(from as int);
        lemma_first_dot(rest, len - from);
        assert(rest =~= component@);
    }
    let ghost before = parts@;
    match number {
        Some(n) => {
            parts.push(n);
        },
        None => {},
    }
    assert(parts@ =~= before + component_numbers(component@));
    parts
}

/// Whether the version with the numbers `latest` is newer than the one with
/// the numbers `current`: the first place at which they differ decides, and
/// where one is the start of the other, the longer is the newer.
pub open spec fn newer(latest: Seq<u32>, current: Seq<u32>) -> bool
    decreases latest.len(),
{
    if latest.len() == 0 || current.len() == 0 {
        latest.len() > current.len()
    } else if latest[0] != current[0] {
        latest[0] > current[0]
    } else {
        newer(latest.drop_first(), current.drop_first())
    }
}

/// Whether `latest` is newer than `current`, as `newer` defines it.
pub fn is_newer(latest: &Vec<u32>, current: &Vec<u32>) -> (result: bool)
    ensures
        result == newer(latest@, current@),
{
    let mut i: usize = 0;
    assert(latest@.skip(0) =~= latest@ && current@.skip(0) =~= current@);
    while i < latest.len() && i < current.len()
        invariant
            i <= latest.len(),
            i <= current.len(),
            newer(latest@, current@) == newer(latest@.skip(i as int), current@.skip(i as int)),
        decreases latest.len() - i,
    {
        if latest[i] != current[i] {
            return latest[i] > current[i];
        }
        assert(latest@.skip(i as int).drop_first() =~= latest@.skip(i + 1));
        assert(current@.skip(i as int).drop_first() =~= current@.skip(i + 1));
        i += 1;
    }
    latest.len() > current.len()
}

/// A release that is newer than the running version.
#[derive(Debug)]
pub struct UpdateInfo {
    /// The version of the release, without a leading `v`.
    pub version: String,
    /// The page of the release.
    pub url: String,
}

/// The version and page of an offered update.
pub open spec fn offer_of(info: Option<UpdateInfo>) -> Option<(Seq<char>, Seq<char>)> {
    match info {
        Some(update) => Some((update.version@, update.url@)),
        None => None,
    }
}

/// What is offered when the latest release is tagged `tag` and found at
/// `url`, and the running version is `current_version`: the release, if its
/// version is not empty, differs from the running one and is newer by its
/// numbers. A `v` before either version does not count.
pub open spec fn release_offer(tag: Seq<char>, url: Seq<char>, current_version: Seq<char>) -> Option<
    (Seq<char>, Seq<char>),
> {
    let latest = strip_v(tag);
    let current = strip_v(current_version);
    if latest.len() == 0 || latest == current {
        None
    } else if newer(version_numbers(latest), version_numbers(current)) {
        Some((latest, url))
    } else {
        None
    }
}

/// Decides whether the release tagged `tag` at `url` is offered to a program
/// of version `current_version`.
pub fn release_decision(tag: &str, url: &str, current_version: &str) -> (offer: Option<UpdateInfo>)
    ensures
        offer_of(offer) == release_offer(tag@, url@, current_version@),
{
    let latest = trim_version(tag);
    let current = trim_version(current_version);
    if latest.as_str().unicode_len() == 0 || latest == current {
        return None;
    }
    let latest_parts = version_parts(latest.as_str());
    let current_parts = version_parts(current.as_str());
    if is_newer(&latest_parts, &current_parts) {
        Some(UpdateInfo { version: latest, url: url.to_owned() })
    } else {
        None
    }
}

/// The error type of `serde_json`.
#[verifier::external_type_specification]
#[verifier::external_body]
pub struct ExJsonError(serde_json::Error);

/// What `serde_json` finds in a text under two keys: `None` where the text
/// is no JSON document; otherwise, for each key, the text of the member of
/// that name if the document is an object that has it as a string.
pub uninterp spec fn json_text_fields(
    body: Seq<char>,
    first_key: Seq<char>,
    second_key: Seq<char>,
) -> Option<(Option<Seq<char>>, Option<Seq<char>>)>;

/// Calls `serde_json::from_str` for a `Value`, then indexes the value by each
/// key and takes `Value::as_str` of what is there. The outcome is named
/// `json_text_fields`: it depends on the three texts alone.
#[verifier::external_body]
fn read_text_fields(body: &str, first_key: &str, second_key: &str) -> (found: Result<
    (Option<String>, Option<String>),
    serde_json::Error,
>)
    ensures
        match found {
            Ok(fields) => json_text_fields(body@, first_key@, second_key@) == Some(
                (text_of(fields.0), text_of(fields.1)),
            ),
            Err(_) => json_text_fields(body@, first_key@, second_key@) is None,
        },
{
    let value: serde_json::Value = serde_json::from_str(body)?;
    let first = value[first_key].as_str().map(str::to_owned);
    let second = value[second_key].as_str().map(str::to_owned);
    Ok((first, second))
}

/// The text that `serde_json` gives for one of its errors.
#[verifier::external_body]
fn json_error_text(error: &serde_json::Error) -> (text: String) {
    format!("{}", error)
}

/// Why a release notice gave no answer.
#[derive(Debug)]
pub enum UpdateError {
    /// The notice is no JSON document; the text says why.
    InvalidJson(String),
}

impl UpdateError {
    /// The text of the error.
    pub open spec fn text(self) -> Seq<char> {
        match self {
            UpdateError::InvalidJson(message) => message@,
        }
    }

    /// The text of the error.
    pub fn message(&self) -> (message: String)
        ensures
            message@ == self.text(),
    {
        match self {
            UpdateError::InvalidJson(message) => message.clone(),
        }
    }
}

/// What a notice that is no JSON document is reported as.
pub open spec fn invalid_json_text(detail: Seq<char>) -> Seq<char> {
    "JSON parse error: "@ + detail
}

/// The error for a notice that is no JSON document.
pub fn invalid_json(detail: &str) -> (error: UpdateError)
    ensures
        error.text() == invalid_json_text(detail@),
{
    let mut message = "JSON parse error: ".to_owned();
    message.append(detail);
    UpdateError::InvalidJson(message)
}

/// The text of an optional member, the empty text where it is missing.
pub open spec fn text_or_empty(text: Option<Seq<char>>) -> Seq<char> {
    match text {
        Some(t) => t,
        None => Seq::empty(),
    }
}

/// What a release notice offers to a program of version `current_version`,
/// given what was found in it under `tag_name` and `html_url`; a missing
/// member counts as the empty text.
pub fn offer_from_fields(
    tag_name: Option<String>,
    html_url: Option<String>,
    current_version: &str,
) -> (offer: Option<UpdateInfo>)
    ensures
        offer_of(offer) == release_offer(
            text_or_empty(text_of(tag_name)),
            text_or_empty(text_of(html_url)),
            current_version@,
        ),
{
    let tag = match tag_name {
        Some(text) => text,
        None => String::new(),
    };
    let url = match html_url {
        Some(text) => text,
        None => String::new(),
    };
    release_decision(tag.as_str(), url.as_str(), current_version)
}

/// Reads the release notice `body`, a JSON document, and decides whether its
/// release is offered to a program of version `current_version`.
///
/// Fails exactly when `body` is no JSON document. Otherwise the answer is
/// `release_offer` of the notice's `tag_name` and `html_url`.
pub fn check_release(body: &str, current_version: &str) -> (result: Result<
    Option<UpdateInfo>,
    UpdateError,
>)
    ensures
        match json_text_fields(body@, "tag_name"@, "html_url"@) {
            Some(fields) => result is Ok && offer_of(result->Ok_0) == release_offer(
                text_or_empty(fields.0),
                text_or_empty(fields.1),
                current_version@,
            ),
            None => result is Err && exists|detail: Seq<char>|
                result->Err_0.text() == invalid_json_text(detail),
        },
{
    match read_text_fields(body, "tag_name", "html_url") {
        Err(error) => {
            let detail = json_error_text(&error);
            Err(invalid_json(detail.as_str()))
        },
        Ok(fields) => Ok(offer_from_fields(fields.0, fields.1, current_version)),
    }
}

} // verus!
