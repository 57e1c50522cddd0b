//! Texts in JSON: lists, and objects of two words.

use vstd::prelude::*;
use vstd::string::*;

use crate::number::digit;
use crate::text::{joined, opt_text, texts};

verus! {

// ------------------------------------------------------------------
// Lists of texts
// ------------------------------------------------------------------

/// How a character stands in a text in JSON.
pub open spec fn json_char(c: char) -> Seq<char> {
    if c == '"' || c == '\\' {
        seq!['\\', c]
    } else if c == '\u{8}' {
        seq!['\\', 'b']
    } else if c == '\t' {
        seq!['\\', 't']
    } else if c == '\n' {
        seq!['\\', 'n']
    } else if c == '\u{c}' {
        seq!['\\', 'f']
    } else if c == '\r' {
        seq!['\\', 'r']
    } else if (c as int) < 0x20 {
        seq!['\\', 'u', '0', '0', digit(c as int / 16), digit(c as int % 16)]
    } else {
        seq![c]
    }
}

/// The characters of a text as they stand in JSON.
pub open spec fn json_chars(s: Seq<char>) -> Seq<char>
    decreases s.len(),
{
    if s.len() == 0 {
        Seq::<char>::empty()
    } else {
        json_chars(s.drop_last()) + json_char(s.last())
    }
}

/// A text in JSON.
pub open spec fn json_text(s: Seq<char>) -> Seq<char> {
    seq!['"'] + json_chars(s) + seq!['"']
}

/// A list of texts in JSON, without blanks.
pub open spec fn json_of_texts(v: Seq<Seq<char>>) -> Seq<char> {
    seq!['['] + joined(Seq::new(v.len(), |i: int| json_text(v[i])), seq![',']) + seq![']']
}

/// The texts that a list in JSON holds, or why it is not one.
pub uninterp spec fn texts_in_json(text: Seq<char>) -> Result<Seq<Seq<char>>, Seq<char>>;

/// Whether reading a list gave these texts.
pub open spec fn gave_texts(
    read: Result<Seq<Seq<char>>, Seq<char>>,
    v: Seq<Seq<char>>,
) -> bool {
    read matches Ok(x) && x == v
}

/// Whether reading a list failed with this text.
pub open spec fn gave_error(read: Result<Seq<Seq<char>>, Seq<char>>, text: Seq<char>) -> bool {
    read matches Err(x) && x == text
}

/// Calls `serde_json::to_string` on a list of strings, which does not fail:
/// the text is the list without blanks, each string in quotation marks with
/// its quotation marks, backslashes and control characters escaped. Read
/// again it gives the same strings.
#[verifier::external_body]
pub(crate) fn texts_to_json(v: &Vec<String>) -> (r: Option<String>)
    ensures
        opt_text(r) == Some(json_of_texts(texts(v@))),
        r matches Some(text) ==> gave_texts(texts_in_json(text@), texts(v@)),
{
    serde_json::to_string(v).ok()
}

/// Calls `serde_json::from_str` for a list of strings. The strings, or the
/// text of the error, are a function of the text alone; the grammar of JSON
/// is not restated here.
#[verifier::external_body]
pub(crate) fn texts_from_json(text: &str) -> (r: Result<Vec<String>, String>)
    ensures
        match r {
            Ok(v) => gave_texts(texts_in_json(text@), texts(v@)),
            Err(e) => gave_error(texts_in_json(text@), e@),
        },
{
    serde_json::from_str(text).map_err(|e: serde_json::Error| e.to_string())
}

// ------------------------------------------------------------------
// Objects of two words
// ------------------------------------------------------------------

/// The text under a key of an object in JSON; nothing where the text is no
/// JSON, no object, has no such key or something else than a text under it.
pub uninterp spec fn word_in_json(text: Seq<char>, key: Seq<char>) -> Option<Seq<char>>;

/// The text of an object in JSON with two texts under two keys.
pub uninterp spec fn json_of_words(
    key: Seq<char>,
    word: Seq<char>,
    other_key: Seq<char>,
    other_word: Seq<char>,
) -> Seq<char>;

/// Calls `serde_json::from_str` and picks the string under a key of the
/// value. The result is a function of the text and the key; the grammar of
/// JSON is not restated here.
#[verifier::external_body]
pub(crate) fn word_from_json(text: &str, key: &str) -> (r: Option<String>)
    ensures
        opt_text(r) == word_in_json(text@, key@),
{
    let value = serde_json::from_str::<serde_json::Value>(text).ok()?;
    value[key].as_str().map(str::to_owned)
}

/// Calls `serde_json::to_string_pretty` on an object with two strings under
/// two keys, which does not fail. The text is a function of the keys and the
/// strings, and each string is found in it again under its key; the layout
/// is not restated here.
#[verifier::external_body]
pub(crate) fn words_to_json(key: &str, word: &str, other_key: &str, other_word: &str) -> (r: Option<
    String,
>)
    requires
        key@ != other_key@,
    ensures
        opt_text(r) == Some(json_of_words(key@, word@, other_key@, other_word@)),
        r matches Some(text) ==> word_in_json(text@, key@) == Some(word@) && word_in_json(
            text@,
            other_key@,
        ) == Some(other_word@),
{
    let mut object = serde_json::Map::new();
    object.insert(key.to_owned(), word.into());
    object.insert(other_key.to_owned(), other_word.into());
    serde_json::to_string_pretty(&object).ok()
}

// ------------------------------------------------------------------
// Laws
// ------------------------------------------------------------------

/// A text without quotation marks, backslashes and control characters stands
/// in JSON as it is, in quotation marks.
pub proof fn law_plain_texts_stand_as_they_are(s: Seq<char>)
    requires
        forall|i: int|
            0 <= i < s.len() ==> #[trigger] s[i] != '"' && s[i] != '\\' && s[i] as int >= 0x20,
    ensures
        json_text(s) == seq!['"'] + s + seq!['"'],
    decreases s.len(),
{
    if s.len() > 0 {
        let rest = s.drop_last();
        assert forall|i: int| 0 <= i < rest.len() implies #[trigger] rest[i] != '"' && rest[i]
            != '\\' && rest[i] as int >= 0x20 by {
            assert(rest[i] == s[i]);
        }
        law_plain_texts_stand_as_they_are(rest);
        let x = json_chars(rest);
        assert(json_text(rest) == seq!['"'] + x + seq!['"']);
        assert(x =~= json_text(rest).subrange(1, json_text(rest).len() - 1));
        assert(rest =~= (seq!['"'] + rest + seq!['"']).subrange(1, (rest.len() + 1) as int));
        assert(s[s.len() - 1] != '"');
        assert(json_chars(s) =~= s);
    } else {
        assert(json_chars(s) =~= s);
    }
}

} // verus!
