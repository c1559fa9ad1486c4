//! Paths as strings: expansion of `~` and `$VAR`, parent and join.

use crate::error::LookupFailure;
use vstd::prelude::*;

verus! {

/// A path that expansion leaves alone: it holds no `$` and does not start
/// with `~`.
pub open spec fn is_plain(path: Seq<char>) -> bool {
    &&& !path.contains('$')
    &&& (path.len() > 0 ==> path[0] != '~')
}

/// A path that can be expanded: wherever it holds `$`, the character after
/// it is an ASCII one. Expansion reads a variable's name from there on, byte
/// by byte.
pub open spec fn is_expandable(path: Seq<char>) -> bool {
    forall|i: int|
        #![trigger path[i]]
        0 <= i && i + 1 < path.len() && path[i] == '$' ==> (path[i + 1] as u32) < 128
}

/// Tells whether a path can be expanded.
pub fn expandable(path: &str) -> (r: bool)
    ensures
        r == is_expandable(path@),
{
    let mut fine = true;
    let mut after_dollar = false;
    for c in it: path.chars()
        invariant
            it.seq() == path@,
            fine == is_expandable(path@.take(it.index() as int)),
            after_dollar == (it.index() > 0 && path@[it.index() - 1] == '$'),
    {
        let ghost at = it.index() as int;
        let ghost before = path@.take(at);
        let ghost now = path@.take(at + 1);
        assert(c == path@[at]);
        assert(now[at] == c);
        assert(forall|i: int| 0 <= i < at ==> now[i] == before[i]);
        if after_dollar && c as u32 >= 128 {
            assert(now[at - 1] == '$');
            fine = false;
        } else if fine {
            assert forall|i: int|
                #![trigger now[i]]
                0 <= i && i + 1 < now.len() && now[i] == '$' implies (now[i + 1] as u32)
                < 128 by {
                if i + 1 < at {
                    assert(before[i] == '$');
                }
            }
        } else {
            proof {
                let i = choose|i: int|
                    #![trigger before[i]]
                    0 <= i && i + 1 < before.len() && before[i] == '$' && (before[i + 1] as u32)
                        >= 128;
                assert(now[i] == '$' && (now[i + 1] as u32) >= 128);
            }
        }
        after_dollar = c == '$';
    }
    assert(path@.take(path@.len() as int) =~= path@);
    fine
}

/// What `std::path::Path::parent` gives for a Unix path: the path without
/// its last component, or nothing where there is no such component.
pub uninterp spec fn path_parent(path: Seq<char>) -> Option<Seq<char>>;

/// A directory and a name joined, as Unix paths are: a name that begins at
/// the root stands alone; after a directory that is empty or ends in `/`
/// the name follows at once; after any other a `/` comes between.
pub open spec fn path_join(base: Seq<char>, name: Seq<char>) -> Seq<char> {
    if name.len() > 0 && name[0] == '/' {
        name
    } else if base.len() == 0 || base.last() == '/' {
        base + name
    } else {
        base + seq!['/'] + name
    }
}

/// Calls `shellexpand::full`, which replaces a leading `~` by the home
/// directory and `$VAR` or `${VAR}` by the variable's value. The result
/// depends on the variables of the process, so the contract states only
/// what the crate promises whatever they hold: a path with neither comes
/// back as it went in. A failed lookup is handed on field by field.
///
/// The crate takes the character after a `$` for one byte when it reads a
/// name, and stops on one that is longer; such a path is left out.
#[verifier::external_body]
pub(crate) fn full(path: &str) -> (r: Result<String, LookupFailure>)
    requires
        is_expandable(path@),
    ensures
        is_plain(path@) ==> r is Ok && r->Ok_0@ == path@,
{
    match shellexpand::full(path) {
        Ok(expanded) => Ok(expanded.into_owned()),
        Err(e) => Err(LookupFailure { var_name: e.var_name, cause: e.cause.to_string() }),
    }
}

/// Calls `std::path::Path::parent`. The contract gives the result its name.
#[verifier::external_body]
pub(crate) fn parent(path: &str) -> (r: Option<String>)
    ensures
        r.deep_view() == path_parent(path@),
{
    match std::path::Path::new(path).parent() {
        Some(p) => Some(p.to_string_lossy().into_owned()),
        None => None,
    }
}

/// Calls `std::path::Path::join`, which on Unix replaces the directory by a
/// name that is absolute and else appends the name, with a `/` before it
/// where the directory does not end in one. The contract says just that.
#[verifier::external_body]
pub(crate) fn join(base: &str, name: &str) -> (r: String)
    ensures
        r@ == path_join(base@, name@),
{
    std::path::Path::new(base).join(name).to_string_lossy().into_owned()
}

} // verus!
