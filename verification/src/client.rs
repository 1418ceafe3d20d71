//! The decision logic of the HTTP client's authentication retry: when
//! a response challenges with an authentication header, the realm the
//! configured scheme must sign is extracted here.

use vstd::prelude::*;

use crate::strutil::has_prefix;
use crate::strutil::is_space;
use crate::strutil::split_all;
use crate::strutil::split_seq;
use crate::strutil::strip_prefix_str;
use crate::strutil::trim_by;
use crate::strutil::trim_char;
use crate::strutil::trim_spaces;

verus! {

/// The realm named by the first comma-separated challenge parameter
/// with a realm key, its value stripped of surrounding quotes.
pub open spec fn realm_in(parts: Seq<Seq<char>>) -> Option<Seq<char>>
    decreases parts.len(),
{
    if parts.len() == 0 {
        None
    } else if has_prefix(parts[0], "realm="@) {
        Some(
            trim_by(
                parts[0].subrange("realm="@.len() as int, parts[0].len() as int),
                |c: char| c == '"',
            ),
        )
    } else {
        realm_in(parts.drop_first())
    }
}

/// The realm of a challenge header that opens with the given scheme
/// name: the parameters after the scheme, trimmed and split on commas,
/// searched for a realm key.  A header for another scheme yields
/// nothing.
pub open spec fn realm_of(header: Seq<char>, method: Seq<char>) -> Option<Seq<char>> {
    if !has_prefix(header, method) {
        None
    } else {
        let rest = header.subrange(method.len() as int, header.len() as int);
        realm_in(split_seq(trim_by(rest, |c: char| is_space(c)), ','))
    }
}

/// Extracts the realm to sign from a challenge header, for the given
/// scheme name.
pub fn find_realm(header: &str, method: &str) -> (r: Option<String>)
    ensures
        r.deep_view() == realm_of(header@, method@),
{
    let rest = match strip_prefix_str(header, method) {
        Some(rest) => rest,
        None => {
            return None;
        },
    };
    let trimmed = trim_spaces(rest.as_str());
    let parts = split_all(trimmed.as_str(), ',');
    let ghost partsv = split_seq(trimmed@, ',');
    let mut i: usize = 0;
    proof {
        assert(partsv.skip(0) =~= partsv);
        assert(realm_of(header@, method@) == realm_in(partsv));
    }
    while i < parts.len()
        invariant
            0 <= i <= parts@.len(),
            parts.deep_view() == partsv,
            parts@.len() == partsv.len(),
            realm_of(header@, method@) == realm_in(partsv),
            realm_in(partsv) == realm_in(partsv.skip(i as int)),
        decreases parts@.len() - i,
    {
        proof {
            assert(parts.deep_view()[i as int] == parts@[i as int]@);
            assert(partsv.skip(i as int)[0] == partsv[i as int]);
            assert(partsv.skip(i as int).drop_first() =~= partsv.skip(i + 1));
        }
        match strip_prefix_str(parts[i].as_str(), "realm=") {
            Some(value) => {
                let out = trim_char(value.as_str(), '"');
                proof {
                    assert(has_prefix(partsv[i as int], "realm="@));
                    assert(value@ == partsv[i as int].subrange(
                        "realm="@.len() as int,
                        partsv[i as int].len() as int,
                    ));
                    assert(realm_in(partsv.skip(i as int)) == Some(
                        trim_by(
                            partsv[i as int].subrange(
                                "realm="@.len() as int,
                                partsv[i as int].len() as int,
                            ),
                            |c: char| c == '"',
                        ),
                    ));
                    assert(out@ == trim_by(value@, |c: char| c == '"'));
                    assert(realm_of(header@, method@) == Some(out@));
                }
                return Some(out);
            },
            None => {},
        }
        i = i + 1;
    }
    proof {
        assert(partsv.skip(partsv.len() as int) =~= Seq::<Seq<char>>::empty());
    }
    None
}

} // verus!
