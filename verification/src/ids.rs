use vstd::prelude::*;
use crate::price::TradeDirection;
use crate::text::concat_str;

verus! {

/// The text of the name-based (version 5) UUID of `name` in the OID
/// namespace.
pub uninterp spec fn uuid_v5_oid_text(name: Seq<char>) -> Seq<char>;

/// `uuid::Uuid::new_v5(&Uuid::NAMESPACE_OID, name.as_bytes())`, written out
/// by its `Display` impl: the hyphenated lower-case form, 36 characters
/// long. The SHA-1 based value itself is only named.
#[verifier::external_body]
fn uuid_v5_oid(name: &str) -> (r: String)
    ensures
        r@ == uuid_v5_oid_text(name@),
        r@.len() == 36,
{
    uuid::Uuid::new_v5(&uuid::Uuid::NAMESPACE_OID, name.as_bytes()).to_string()
}

/// Name of a trade direction.
pub open spec fn direction_text(d: TradeDirection) -> Seq<char> {
    match d {
        TradeDirection::Long => "Long"@,
        TradeDirection::Short => "Short"@,
    }
}

impl TradeDirection {
    /// `Long` or `Short`.
    pub fn label(&self) -> (r: &'static str)
        ensures
            r@ == direction_text(*self),
    {
        match self {
            TradeDirection::Long => "Long",
            TradeDirection::Short => "Short",
        }
    }
}

/// Stable id of the opportunity found for `pair_name` from the search
/// source `source_suffix` in `direction`: the version-5 UUID (OID
/// namespace) of `<pair>_<source>_<direction>`, so the same finding always
/// gets the same id.
pub fn opportunity_id(pair_name: &str, source_suffix: &str, direction: TradeDirection) -> (r: String)
    ensures
        r@ == uuid_v5_oid_text(pair_name@ + "_"@ + source_suffix@ + "_"@ + direction_text(direction)),
        r@.len() == 36,
{
    let s = String::from_str(pair_name);
    let s = concat_str(s, "_");
    let s = concat_str(s, source_suffix);
    let s = concat_str(s, "_");
    let s = concat_str(s, direction.label());
    uuid_v5_oid(s.as_str())
}

} // verus!
