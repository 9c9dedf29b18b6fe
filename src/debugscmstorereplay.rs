use vstd::prelude::*;

verus! {

pub fn aliases() -> (r: &'static str)
    ensures
        r@ == "debugscmstorereplay"@,
{
    "debugscmstorereplay"
}

pub fn doc() -> (r: &'static str)
    ensures
        r@ == "replay scmstore activity log"@,
{
    "replay scmstore activity log"
}

pub fn synopsis() -> (r: Option<&'static str>)
    ensures
        r is None,
{
    None
}

pub fn enable_cas() -> (r: bool)
    ensures
        !r,
{
    false
}

} // verus!
