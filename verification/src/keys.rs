//! The API keys.

use crate::text::texts;
use vstd::prelude::*;

verus! {

/// The list of strings that a JSON text holds; `None` where it is not JSON or holds anything
/// else.
pub uninterp spec fn json_strings(text: Seq<char>) -> Option<Seq<Seq<char>>>;

/// `serde_json::from_str` of `serde_json`, for a list of strings. What it gives depends on the
/// text alone and is named `json_strings`; which texts it accepts is left to that crate.
#[verifier::external_body]
fn parse_json_strings(data: &str) -> (res: Option<Vec<String>>)
    ensures
        match res {
            Some(list) => json_strings(data@) == Some(texts(list@)),
            None => json_strings(data@) is None,
        },
{
    serde_json::from_str::<Vec<String>>(data).ok()
}

/// The keys that a key file's contents hold: those of its list, or none where the file is
/// missing or is no list of strings.
pub open spec fn keys_held(list: Option<Seq<Seq<char>>>) -> Seq<Seq<char>> {
    match list {
        Some(keys) => keys,
        None => Seq::empty(),
    }
}

/// Takes the keys out of a key file's list, if there was one.
pub fn keys_or_none(list: Option<Vec<String>>) -> (keys: Vec<String>)
    ensures
        texts(keys@) == keys_held(
            match list {
                Some(l) => Some(texts(l@)),
                None => None,
            },
        ),
{
    match list {
        Some(l) => l,
        None => {
            let keys: Vec<String> = Vec::new();
            assert(texts(keys@) =~= Seq::<Seq<char>>::empty());
            keys
        },
    }
}

/// The API keys, out of the contents of the key file; `None` stands for a file that cannot be
/// read. Without keys nobody is asked for one.
pub fn api_keys(file: Option<String>) -> (keys: Vec<String>)
    ensures
        texts(keys@) == keys_held(
            match file {
                Some(data) => json_strings(data@),
                None => None,
            },
        ),
{
    match file {
        Some(data) => keys_or_none(parse_json_strings(data.as_str())),
        None => keys_or_none(None),
    }
}

/// The path of the key file: what the environment names, else `api_keys.json`.
pub fn api_keys_path(env: Option<String>) -> (path: String)
    ensures
        path@ == match env {
            Some(p) => p@,
            None => "api_keys.json"@,
        },
{
    match env {
        Some(p) => p,
        None => "api_keys.json".to_owned(),
    }
}

} // verus!
