//! Subscriptions.

use vstd::prelude::*;
use vstd::string::*;

use crate::json::{gave_texts, texts_from_json, texts_in_json};
use crate::text::{cat2, texts};

verus! {

/// What is said of a list of names that was read, or could not be.
pub fn creators_read(read: Result<Vec<String>, String>) -> (r: Result<Vec<String>, String>)
    ensures
        match read {
            Ok(creators) => r == Ok::<Vec<String>, String>(creators),
            Err(e) => r matches Err(text) && text@ == "creators 解析失败："@ + e@,
        },
{
    match read {
        Ok(creators) => Ok(creators),
        Err(e) => Err(cat2("creators 解析失败：", e.as_str())),
    }
}

/// The names by which works are also recognised when an import is planned: a
/// list of texts in JSON.
pub fn import_creators(creators_json: &str) -> (r: Result<Vec<String>, String>)
    ensures
        match r {
            Ok(creators) => gave_texts(texts_in_json(creators_json@), texts(creators@)),
            Err(text) => texts_in_json(creators_json@) matches Err(e) && text@
                == "creators 解析失败："@ + e,
        },
{
    creators_read(texts_from_json(creators_json))
}

} // verus!
