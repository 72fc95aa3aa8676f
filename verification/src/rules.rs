//! The instruction set and the error policy of each Befunge version.

use vstd::prelude::*;
use crate::error::FungeError;

verus! {

/// The language versions the engine knows.
#[derive(Clone, Copy, Debug, PartialEq, Eq, Structural)]
pub enum Version {
    B93,
    B97,
    B98,
}

/// What an instruction pointer does on an opcode that is not implemented.
#[derive(Clone, Copy, Debug, PartialEq, Eq, Structural)]
pub enum OnError {
    /// Go on as if it were a no-op.
    Ignore,
    /// Negate the delta.
    Reflect,
    /// End the program with exit code 0.
    Quit,
}

/// The opcodes of Befunge-93.
pub open spec fn in_b93(op: u8) -> bool {
    ||| 33 <= op <= 38
    ||| 42 <= op <= 58
    ||| op == 60
    ||| 62 <= op <= 64
    ||| op == 92
    ||| 94 <= op <= 96
    ||| op == 103
    ||| op == 112
    ||| op == 118
    ||| op == 124
    ||| op == 126
}

/// Whether `op` belongs to the instruction set of `version`. Befunge-97 adds
/// `'` and `a` to `f` to Befunge-93; Befunge-98 has every printable character
/// but the space and the capital letters.
pub open spec fn permits(version: Version, op: u8) -> bool {
    match version {
        Version::B93 => in_b93(op),
        Version::B97 => in_b93(op) || op == 39 || 97 <= op <= 102,
        Version::B98 => 33 <= op <= 64 || 91 <= op <= 126,
    }
}

/// The error policy that comes with a version.
pub open spec fn policy_of(version: Version) -> OnError {
    match version {
        Version::B93 => OnError::Ignore,
        Version::B97 => OnError::Ignore,
        Version::B98 => OnError::Reflect,
    }
}

/// The version that `name` names: `B93`, `B97` or `B98`, in either case.
pub open spec fn version_named(name: Seq<char>) -> Option<Version> {
    if name.len() == 3 && (name[0] == 'B' || name[0] == 'b') && name[1] == '9' {
        if name[2] == '3' {
            Some(Version::B93)
        } else if name[2] == '7' {
            Some(Version::B97)
        } else if name[2] == '8' {
            Some(Version::B98)
        } else {
            None
        }
    } else {
        None
    }
}

/// The policy that `name` names: `Ignore`, `Reflect` or `Quit`, or else the
/// policy of the version of that name.
pub open spec fn policy_named(name: Seq<char>) -> Option<OnError> {
    if name == "Ignore"@ {
        Some(OnError::Ignore)
    } else if name == "Reflect"@ {
        Some(OnError::Reflect)
    } else if name == "Quit"@ {
        Some(OnError::Quit)
    } else {
        match version_named(name) {
            Some(v) => Some(policy_of(v)),
            None => None,
        }
    }
}

/// Reads a version name.
pub fn parse_version(name: &str) -> (r: Option<Version>)
    ensures
        r == version_named(name@),
{
    if name.unicode_len() != 3 {
        return None;
    }
    let b = name.get_char(0);
    if !(b == 'B' || b == 'b') || name.get_char(1) != '9' {
        return None;
    }
    let last = name.get_char(2);
    if last == '3' {
        Some(Version::B93)
    } else if last == '7' {
        Some(Version::B97)
    } else if last == '8' {
        Some(Version::B98)
    } else {
        None
    }
}

fn same_text(a: &str, b: &str) -> (r: bool)
    ensures
        r == (a@ == b@),
{
    let n = a.unicode_len();
    if n != b.unicode_len() {
        return false;
    }
    let mut i: usize = 0;
    while i < n
        invariant
            n == a@.len(),
            n == b@.len(),
            i <= n,
            a@.take(i as int) == b@.take(i as int),
        decreases n - i,
    {
        if a.get_char(i) != b.get_char(i) {
            assert(a@[i as int] != b@[i as int]);
            return false;
        }
        i = i + 1;
        assert(a@.take(i as int) == a@.take(i - 1).push(a@[i - 1]));
        assert(b@.take(i as int) == b@.take(i - 1).push(b@[i - 1]));
    }
    assert(a@.take(n as int) == a@);
    assert(b@.take(n as int) == b@);
    true
}

/// The instruction set and error policy in force.
#[derive(Clone, Copy, Debug, PartialEq, Eq, Structural)]
pub struct Rules {
    pub version: Version,
    pub on_error: OnError,
}

impl Rules {
    /// Befunge-98, reflecting on what is not implemented.
    pub fn new() -> (r: Self)
        ensures
            r == (Rules { version: Version::B98, on_error: OnError::Reflect }),
    {
        Rules { version: Version::B98, on_error: OnError::Reflect }
    }

    /// The rules of the version that `version` names; the name itself comes
    /// back in the error when it names none.
    pub fn with_rules(version: &str) -> (r: Result<Self, FungeError>)
        ensures
            match version_named(version@) {
                Some(v) => r == Ok::<Rules, FungeError>(
                    Rules { version: v, on_error: policy_of(v) },
                ),
                None => (r matches Err(FungeError::Version(name)) && name@ == version@),
            },
    {
        match parse_version(version) {
            Some(v) => Ok(Rules { version: v, on_error: Self::policy(v) }),
            None => Err(FungeError::Version(String::from_str(version))),
        }
    }

    fn policy(v: Version) -> (p: OnError)
        ensures
            p == policy_of(v),
    {
        match v {
            Version::B93 => OnError::Ignore,
            Version::B97 => OnError::Ignore,
            Version::B98 => OnError::Reflect,
        }
    }

    /// The opcodes of the version that `version` names, in ascending order.
    pub fn get_instruction_set(version: &str) -> (r: Result<Vec<u8>, FungeError>)
        ensures
            match version_named(version@) {
                Some(v) => (r matches Ok(set) && (forall|op: u8|
                    #![trigger set@.contains(op)]
                    #![trigger permits(v, op)]
                    set@.contains(op) <==> permits(v, op)) && (forall|i: int, j: int|
                    0 <= i < j < set@.len() ==> set@[i] < set@[j])),
                None => (r matches Err(FungeError::Version(name)) && name@ == version@),
            },
    {
        match parse_version(version) {
            Some(v) => {
                let mut set: Vec<u8> = Vec::new();
                let mut op: u8 = 0;
                while op < 255
                    invariant
                        forall|o: u8|
                            #![trigger set@.contains(o)]
                            #![trigger permits(v, o)]
                            set@.contains(o) <==> (o < op && permits(v, o)),
                        forall|i: int, j: int| 0 <= i < j < set@.len() ==> set@[i] < set@[j],
                    decreases 255 - op,
                {
                    if Self::allows_version(v, op) {
                        let ghost before = set@;
                        set.push(op);
                        assert forall|o: u8|
                            #![trigger set@.contains(o)]
                            #![trigger before.contains(o)]
                            set@.contains(o) <==> (before.contains(o) || o == op) by {
                            if before.contains(o) {
                                let k = choose|k: int| 0 <= k < before.len() && before[k] == o;
                                assert(set@[k] == o);
                            }
                            if o == op {
                                assert(set@[before.len() as int] == o);
                            }
                            if set@.contains(o) {
                                let k = choose|k: int| 0 <= k < set@.len() && set@[k] == o;
                                if k < before.len() {
                                    assert(before[k] == o);
                                }
                            }
                        }
                        assert forall|i: int, j: int| 0 <= i < j < set@.len() implies set@[i]
                            < set@[j] by {
                            assert(set@[i] == before[i]);
                            assert(before.contains(before[i]));
                            if j < before.len() {
                                assert(set@[j] == before[j]);
                            }
                        }
                    }
                    op = op + 1;
                }
                assert(!permits(v, 255));
                Ok(set)
            },
            None => Err(FungeError::Version(String::from_str(version))),
        }
    }

    /// The policy that `action` names.
    pub fn get_on_error(action: &str) -> (r: Result<OnError, FungeError>)
        ensures
            match policy_named(action@) {
                Some(p) => r == Ok::<OnError, FungeError>(p),
                None => (r matches Err(FungeError::Version(name)) && name@ == action@),
            },
    {
        if same_text(action, "Ignore") {
            Ok(OnError::Ignore)
        } else if same_text(action, "Reflect") {
            Ok(OnError::Reflect)
        } else if same_text(action, "Quit") {
            Ok(OnError::Quit)
        } else {
            match parse_version(action) {
                Some(v) => Ok(Self::policy(v)),
                None => Err(FungeError::Version(String::from_str(action))),
            }
        }
    }

    fn allows_version(v: Version, op: u8) -> (b: bool)
        ensures
            b == permits(v, op),
    {
        let b93 = (33 <= op && op <= 38) || (42 <= op && op <= 58) || op == 60 || (62 <= op && op
            <= 64) || op == 92 || (94 <= op && op <= 96) || op == 103 || op == 112 || op == 118
            || op == 124 || op == 126;
        match v {
            Version::B93 => b93,
            Version::B97 => b93 || op == 39 || (97 <= op && op <= 102),
            Version::B98 => (33 <= op && op <= 64) || (91 <= op && op <= 126),
        }
    }

    /// Whether `op` is an instruction of the version in force.
    pub fn allows(&self, op: u8) -> (b: bool)
        ensures
            b == permits(self.version, op),
    {
        Self::allows_version(self.version, op)
    }
}

} // verus!
