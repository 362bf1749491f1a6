//! Stuck-at faults and the names derived from their locations.
use vstd::prelude::*;
use crate::text::{concat, find_char, slice};

verus! {

/// A stuck-at fault: the signal at `location` (`wire` or `instance/port`) pinned to `sa_value`.
#[derive(Debug, Default, Clone, Eq, PartialEq)]
pub struct Fault {
    pub location: String,
    pub sa_value: bool,
}

/// The transition-fault tag of a stuck-at value: slow-to-fall for one, slow-to-rise for zero.
pub open spec fn slow_to_tag(sa_value: bool) -> Seq<char> {
    if sa_value {
        "stf"@
    } else {
        "str"@
    }
}

/// `s` with each slash replaced by an underscore.
pub open spec fn sanitize(s: Seq<char>) -> Seq<char> {
    s.map_values(|c: char| if c == '/' { '_' } else { c })
}

impl Fault {
    pub fn new(location: String, sa_value: bool) -> (r: Self)
        ensures
            r.location@ == location@,
            r.sa_value == sa_value,
    {
        Fault { location, sa_value }
    }

    pub fn location(&self) -> (r: &str)
        ensures
            r@ == self.location@,
    {
        self.location.as_str()
    }

    pub fn sa_value(&self) -> (r: bool)
        ensures
            r == self.sa_value,
    {
        self.sa_value
    }

    /// `"stf"` for a stuck-at-one fault, `"str"` for a stuck-at-zero one.
    pub fn slow_to(&self) -> (r: &'static str)
        ensures
            r@ == slow_to_tag(self.sa_value),
    {
        slow_to(self.sa_value)
    }

    /// The location with its slashes replaced by underscores, for use in names.
    pub fn sanitized_location(&self) -> (r: String)
        ensures
            r@ == sanitize(self.location@),
    {
        sanitized(self.location.as_str())
    }

    /// A copy of this fault.
    pub fn duplicate(&self) -> (r: Fault)
        ensures
            r.location@ == self.location@,
            r.sa_value == self.sa_value,
    {
        Fault { location: self.location.clone(), sa_value: self.sa_value }
    }
}

/// The transition-fault tag of `sa_value`.
pub fn slow_to(sa_value: bool) -> (r: &'static str)
    ensures
        r@ == slow_to_tag(sa_value),
{
    if sa_value {
        "stf"
    } else {
        "str"
    }
}

/// `s` with each slash replaced by an underscore.
pub fn sanitized(s: &str) -> (r: String)
    ensures
        r@ == sanitize(s@),
{
    let n = s.unicode_len();
    let mut r = String::new();
    let mut i: usize = 0;
    while i < n
        invariant
            n == s@.len(),
            i <= n,
            r@ == sanitize(s@.subrange(0, i as int)),
        decreases n - i,
    {
        proof {
            reveal_strlit("_");
        }
        let c = s.get_char(i);
        let piece: String = if c == '/' {
            String::from_str("_")
        } else {
            String::from_str(s.substring_char(i, i + 1))
        };
        assert(piece@ =~= seq![if c == '/' { '_' } else { c }]);
        r = concat(r.as_str(), piece.as_str());
        assert(sanitize(s@.subrange(0, i + 1)) =~= sanitize(s@.subrange(0, i as int)).push(
            if c == '/' { '_' } else { c },
        ));
        assert(r@ =~= sanitize(s@.subrange(0, i + 1)));
        i = i + 1;
    }
    assert(s@.subrange(0, n as int) =~= s@);
    r
}

/// `s` is `head/tail` with the only slash at `i`.
pub open spec fn splits_at(s: Seq<char>, i: int) -> bool {
    &&& 0 <= i < s.len()
    &&& s[i] == '/'
    &&& !s.subrange(0, i).contains('/')
    &&& !s.subrange(i + 1, s.len() as int).contains('/')
}

/// A location of depth one: a bare wire name.
pub open spec fn is_bare(s: Seq<char>) -> bool {
    !s.contains('/')
}

/// A location of depth two: `instance/port`.
pub open spec fn is_pair(s: Seq<char>) -> bool {
    exists|i: int| splits_at(s, i)
}

/// The position of the slash of a depth-two location.
pub open spec fn split_index(s: Seq<char>) -> int {
    choose|i: int| splits_at(s, i)
}

/// The instance part of a depth-two location.
pub open spec fn path_head(s: Seq<char>) -> Seq<char> {
    s.subrange(0, split_index(s))
}

/// The port part of a depth-two location.
pub open spec fn path_tail(s: Seq<char>) -> Seq<char> {
    s.subrange(split_index(s) + 1, s.len() as int)
}

/// The shape of a signal location.
pub enum Location {
    /// A bare wire name.
    Bare,
    /// An instance and one of its ports.
    Pair(String, String),
    /// More than one slash.
    TooDeep,
}

/// Splits a signal location at its slashes.
pub fn split_location(s: &str) -> (r: Location)
    ensures
        match r {
            Location::Bare => is_bare(s@),
            Location::Pair(g, p) => is_pair(s@) && g@ == path_head(s@) && p@ == path_tail(s@),
            Location::TooDeep => !is_bare(s@) && !is_pair(s@),
        },
{
    let n = s.unicode_len();
    match find_char(s, '/', 0) {
        None => {
            assert forall|j: int| 0 <= j < s@.len() implies s@[j] != '/' by {}
            Location::Bare
        },
        Some(i) => {
            assert(s@.contains('/')) by {
                assert(s@[i as int] == '/');
            }
            assert(!s@.subrange(0, i as int).contains('/')) by {
                assert forall|j: int| 0 <= j < i implies s@.subrange(0, i as int)[j] != '/' by {}
            }
            match find_char(s, '/', i + 1) {
                None => {
                    assert(!s@.subrange(i + 1, n as int).contains('/')) by {
                        assert forall|j: int| 0 <= j < n - (i + 1) implies #[trigger] s@.subrange(i + 1, n as int)[j] != '/' by {
                            assert(s@.subrange(i + 1, n as int)[j] == s@[i + 1 + j]);
                        }
                    }
                    assert(splits_at(s@, i as int));
                    proof {
                        let k = split_index(s@);
                        assert(splits_at(s@, k));
                        if k < i {
                            assert(s@.subrange(k + 1, n as int)[i - k - 1] == '/');
                        } else if k > i {
                            assert(s@.subrange(0, k)[i as int] == '/');
                        }
                    }
                    Location::Pair(slice(s, 0, i), slice(s, i + 1, n))
                },
                Some(j) => {
                    assert(!is_pair(s@)) by {
                        if is_pair(s@) {
                            let k = choose|k: int| splits_at(s@, k);
                            if k < i {
                                assert(s@.subrange(k + 1, n as int)[i - k - 1] == '/');
                            } else if k > i {
                                assert(s@.subrange(0, k)[i as int] == '/');
                            } else {
                                assert(s@.subrange(k + 1, n as int)[j - k - 1] == '/');
                            }
                        }
                    }
                    Location::TooDeep
                },
            }
        },
    }
}

} // verus!
