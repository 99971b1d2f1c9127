//! Reading values out of the agent's INI configuration.
use vstd::prelude::*;

verus! {

/// The value that rust-ini finds under `key` in `[section]` of the INI text
/// `text`; `None` when the text does not parse or has no such value.
pub uninterp spec fn ini_value(text: Seq<char>, section: Seq<char>, key: Seq<char>) -> Option<Seq<char>>;

/// `ini::Ini::load_from_str`, then `section(Some(section))` and `get(key)`:
/// the result is named by `ini_value`.
#[verifier::external_body]
fn ini_lookup(text: &str, section: &str, key: &str) -> (r: Option<String>)
    ensures
        r is None <==> ini_value(text@, section@, key@) is None,
        r matches Some(v) ==> ini_value(text@, section@, key@) == Some(v@),
{
    let conf = match ini::Ini::load_from_str(text) {
        Ok(conf) => conf,
        Err(_) => return None,
    };
    match conf.section(Some(section)) {
        Some(props) => props.get(key).map(String::from),
        None => None,
    }
}

/// The value under `key` in `[section]` of the configuration text
/// `conf_text`, or the empty string where there is none.
pub fn conf_get(conf_text: &str, section: &str, key: &str) -> (r: String)
    ensures
        r@ == (match ini_value(conf_text@, section@, key@) {
            Some(v) => v,
            None => Seq::<char>::empty(),
        }),
{
    match ini_lookup(conf_text, section, key) {
        Some(v) => v,
        None => String::new(),
    }
}

} // verus!
