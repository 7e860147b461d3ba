use vstd::prelude::*;
use vstd::string::StringExecFns;

verus! {

/// Relies on `chrono::Utc::now` and `DateTime::timestamp_micros`: the current
/// time in microseconds since the Unix epoch. It depends on the system clock,
/// so nothing is promised of the value.
#[verifier::external_body]
pub(crate) fn clock_now() -> (r: i64) {
    chrono::Utc::now().timestamp_micros()
}

/// Relies on `uuid::Uuid::new_v4` and its `Display`: a random version-4 UUID
/// in hyphenated form, which is 36 characters long
/// (`uuid::fmt::Hyphenated::LENGTH`). Its value is random, so nothing more is
/// promised.
#[verifier::external_body]
pub(crate) fn fresh_uuid() -> (r: String)
    ensures
        r@.len() == 36,
{
    uuid::Uuid::new_v4().to_string()
}

/// `s` starts with `p`.
pub open spec fn starts_with(s: Seq<char>, p: Seq<char>) -> bool {
    p.len() <= s.len() && s.subrange(0, p.len() as int) == p
}

/// A new identifier: `prefix` followed by a random UUID.
pub fn new_id(prefix: &str) -> (r: String)
    ensures
        starts_with(r@, prefix@),
        r@.len() == prefix@.len() + 36,
{
    let u = fresh_uuid();
    let r = prefix.to_owned().concat(u.as_str());
    assert(r@.subrange(0, prefix@.len() as int) =~= prefix@);
    r
}

} // verus!
