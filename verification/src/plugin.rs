//! The decision logic of the plugin pipeline: which directory entries are
//! candidate plugin sources, what a compiled artifact is called, the
//! known-answer self-test gate that admits a module into the roster, and the
//! substring match that binds a selector to a validated artifact.
//!
//! File names travel through here as byte strings; the unverified front end
//! does the actual directory walking, compiling and dynamic loading, and
//! hands every outcome back as a plain value.
use vstd::prelude::*;

verus! {

/// First operand of the self-test call.
pub const TEST_LHS: isize = 1;

/// Second operand of the self-test call.
pub const TEST_RHS: isize = 3;

/// The only answer to `add(TEST_LHS, TEST_RHS)` that admits a module.
pub const TEST_EXPECTED: isize = 4;

/// What probing a compiled module for its self-test produced, as the
/// unverified loader reports it.
#[derive(Clone, Copy, PartialEq, Eq, Structural, Debug)]
pub enum ProbeResult {
    /// The module loaded, exported the self-test entry point, and the call
    /// returned this value.
    Answered(isize),
    /// The module could not be opened as a dynamic library.
    LoadFailed,
    /// The module loaded but does not export the self-test entry point.
    MissingSymbol,
}

/// The validator's verdict on one candidate module.  Only `Admitted` lets
/// the module into the roster; the three failures are reported apart, since
/// a module that loaded but answered wrongly failed a different contract
/// than one that never loaded.
#[derive(Clone, Copy, PartialEq, Eq, Structural, Debug)]
pub enum ModuleVerdict {
    /// The self-test returned exactly the expected sum: the module is
    /// trusted to drive a player.
    Admitted,
    /// The self-test ran but returned something else.
    WrongAnswer,
    /// The module failed to open; it is excluded.
    LoadError,
    /// The required entry point is missing; the module is excluded.
    SymbolError,
}

/// The verdict that `validate_module` assigns to a probe outcome.
pub open spec fn verdict_spec(probe: ProbeResult) -> ModuleVerdict {
    match probe {
        ProbeResult::Answered(a) => if a == TEST_EXPECTED {
            ModuleVerdict::Admitted
        } else {
            ModuleVerdict::WrongAnswer
        },
        ProbeResult::LoadFailed => ModuleVerdict::LoadError,
        ProbeResult::MissingSymbol => ModuleVerdict::SymbolError,
    }
}

/// The self-test gate: a module is admitted exactly when it loaded, exported
/// the entry point, and answered `TEST_EXPECTED`; any other answer, a load
/// failure, or a missing symbol excludes it, each under its own verdict.
pub fn validate_module(probe: ProbeResult) -> (r: ModuleVerdict)
    ensures
        r == verdict_spec(probe),
        (r is Admitted) <==> probe == ProbeResult::Answered(TEST_EXPECTED),
{
    match probe {
        ProbeResult::Answered(a) => {
            if a == TEST_EXPECTED {
                ModuleVerdict::Admitted
            } else {
                ModuleVerdict::WrongAnswer
            }
        },
        ProbeResult::LoadFailed => ModuleVerdict::LoadError,
        ProbeResult::MissingSymbol => ModuleVerdict::SymbolError,
    }
}

/// The bytes of the plugin source extension, ".rs".
pub open spec fn rs_ext() -> Seq<u8> {
    seq![46u8, 114u8, 115u8]
}

/// The bytes of "structs.rs", the shared data-model source that every
/// plugin depends on and which is therefore never itself a candidate.
pub open spec fn structs_file_name() -> Seq<u8> {
    seq![115u8, 116u8, 114u8, 117u8, 99u8, 116u8, 115u8, 46u8, 114u8, 115u8]
}

/// Whether `s` ends in `suffix`.
pub open spec fn ends_with(s: Seq<u8>, suffix: Seq<u8>) -> bool {
    s.len() >= suffix.len() && s.subrange(s.len() - suffix.len(), s.len() as int) == suffix
}

/// A directory entry is a candidate plugin source when it is a regular file
/// (not a directory), carries the source extension, and is not the shared
/// data-model file.
pub open spec fn candidate_spec(name: Seq<u8>, is_dir: bool) -> bool {
    !is_dir && ends_with(name, rs_ext()) && name != structs_file_name()
}

/// Whether the file named `name` (a directory iff `is_dir`) is admitted
/// into the set of candidate plugin sources, per `candidate_spec`.
pub fn is_candidate_source(name: &Vec<u8>, is_dir: bool) -> (r: bool)
    ensures
        r == candidate_spec(name@, is_dir),
{
    if is_dir {
        return false;
    }
    let n = name.len();
    if n < 3 {
        proof {
            assert(!ends_with(name@, rs_ext()));
        }
        return false;
    }
    let has_ext = name[n - 3] == 46 && name[n - 2] == 114 && name[n - 1] == 115;
    proof {
        let tail = name@.subrange(n - 3, n as int);
        assert(tail.len() == 3 && tail[0] == name@[n - 3] && tail[1] == name@[n - 2] && tail[2]
            == name@[n - 1]);
        if has_ext {
            assert(tail =~= rs_ext());
        } else {
            assert(tail != rs_ext());
        }
    }
    if !has_ext {
        return false;
    }
    !eq_structs_name(name)
}

/// Whether `name` is exactly "structs.rs".
fn eq_structs_name(name: &Vec<u8>) -> (r: bool)
    ensures
        r == (name@ == structs_file_name()),
{
    if name.len() != 10 {
        return false;
    }
    let r = name[0] == 115 && name[1] == 116 && name[2] == 114 && name[3] == 117 && name[4] == 99
        && name[5] == 116 && name[6] == 115 && name[7] == 46 && name[8] == 114 && name[9] == 115;
    proof {
        if r {
            assert(name@ =~= structs_file_name());
        }
    }
    r
}

/// The artifact file name derived from a candidate source name: the source
/// extension is replaced by the platform's dynamic-module extension, and
/// Unix-like targets add the platform's library name prefix.
pub open spec fn artifact_name_spec(name: Seq<u8>, windows: bool) -> Seq<u8> {
    let stem = name.subrange(0, name.len() - 3);
    if windows {
        stem + seq![46u8, 100u8, 108u8, 108u8]  // ".dll"

    } else {
        seq![108u8, 105u8, 98u8] + stem + seq![46u8, 115u8, 111u8]  // "lib" … ".so"

    }
}

/// Derive the compiled module's file name from the candidate's: the ".rs"
/// extension becomes ".dll" on Windows, or the name gains a "lib" prefix
/// and a ".so" extension elsewhere.  The loader finds the artifact only if
/// this naming is reproduced exactly.
pub fn artifact_name(name: &Vec<u8>, windows: bool) -> (r: Vec<u8>)
    requires
        ends_with(name@, rs_ext()),
    ensures
        r@ == artifact_name_spec(name@, windows),
{
    let mut out: Vec<u8> = Vec::new();
    if !windows {
        out.push(108);
        out.push(105);
        out.push(98);
    }
    let ghost prefix = out@;
    let stem_len = name.len() - 3;
    let mut i: usize = 0;
    while i < stem_len
        invariant
            i <= stem_len,
            stem_len == name@.len() - 3,
            out@ == prefix + name@.subrange(0, i as int),
        decreases stem_len - i,
    {
        out.push(name[i]);
        proof {
            assert(prefix + name@.subrange(0, i + 1) =~= (prefix + name@.subrange(0, i as int)).push(
                name@[i as int],
            ));
        }
        i = i + 1;
    }
    if windows {
        out.push(46);
        out.push(100);
        out.push(108);
        out.push(108);
    } else {
        out.push(46);
        out.push(115);
        out.push(111);
    }
    proof {
        assert(out@ =~= artifact_name_spec(name@, windows));
    }
    out
}

/// Whether `needle` occurs in `haystack` starting at position `i`.
pub open spec fn is_substring_at(haystack: Seq<u8>, needle: Seq<u8>, i: int) -> bool {
    0 <= i && i + needle.len() <= haystack.len() && haystack.subrange(i, i + needle.len())
        == needle
}

/// Whether `needle` occurs anywhere in `haystack`.
pub open spec fn contains_bytes(haystack: Seq<u8>, needle: Seq<u8>) -> bool {
    exists|i: int| is_substring_at(haystack, needle, i)
}

/// Whether `needle` matches `haystack` at position `at`.
fn match_at(haystack: &Vec<u8>, needle: &Vec<u8>, at: usize) -> (r: bool)
    requires
        at + needle@.len() <= haystack@.len(),
    ensures
        r == is_substring_at(haystack@, needle@, at as int),
{
    proof {
        vstd::std_specs::vec::axiom_spec_len(haystack);
    }
    let mut j: usize = 0;
    while j < needle.len()
        invariant
            j <= needle@.len(),
            at + needle@.len() <= haystack@.len(),
            haystack@.len() <= usize::MAX,
            forall|k: int| 0 <= k < j ==> haystack@[at + k] == needle@[k],
        decreases needle@.len() - j,
    {
        if haystack[at + j] != needle[j] {
            proof {
                let window = haystack@.subrange(at as int, at + needle@.len());
                if window == needle@ {
                    assert(window[j as int] == haystack@[at + j]);
                }
            }
            return false;
        }
        j = j + 1;
    }
    proof {
        assert(haystack@.subrange(at as int, at + needle@.len()) =~= needle@);
    }
    true
}

/// Whether `needle` occurs anywhere in `haystack`, per `contains_bytes`.
pub fn bytes_contain(haystack: &Vec<u8>, needle: &Vec<u8>) -> (r: bool)
    ensures
        r == contains_bytes(haystack@, needle@),
{
    if needle.len() > haystack.len() {
        proof {
            assert forall|i: int| !is_substring_at(haystack@, needle@, i) by {}
        }
        return false;
    }
    if needle.len() == 0 {
        proof {
            assert(haystack@.subrange(0, 0) =~= needle@);
            assert(is_substring_at(haystack@, needle@, 0));
        }
        return true;
    }
    let last = haystack.len() - needle.len();
    let mut i: usize = 0;
    while i <= last
        invariant
            i <= last + 1,
            last == haystack@.len() - needle@.len(),
            needle@.len() >= 1,
            haystack@.len() <= usize::MAX,
            forall|k: int| 0 <= k < i ==> !is_substring_at(haystack@, needle@, k),
        decreases last - i + 1,
    {
        if match_at(haystack, needle, i) {
            return true;
        }
        i = i + 1;
    }
    proof {
        assert forall|k: int| !is_substring_at(haystack@, needle@, k) by {
            if 0 <= k <= last {
                assert(!is_substring_at(haystack@, needle@, k));
            }
        }
    }
    false
}

/// Bind a selector to a validated artifact: the first script whose path
/// contains the selector as a substring wins the slot; no match means the
/// slot stays under human control.
pub fn select_script(scripts: &Vec<Vec<u8>>, selector: &Vec<u8>) -> (r: Option<usize>)
    ensures
        match r {
            Some(i) => 0 <= i < scripts@.len() && contains_bytes(scripts@[i as int]@, selector@)
                && (forall|k: int|
                0 <= k < i ==> !contains_bytes((#[trigger] scripts@[k])@, selector@)),
            None => forall|k: int|
                0 <= k < scripts@.len() ==> !contains_bytes((#[trigger] scripts@[k])@, selector@),
        },
{
    let mut i: usize = 0;
    while i < scripts.len()
        invariant
            i <= scripts@.len(),
            forall|k: int| 0 <= k < i ==> !contains_bytes((#[trigger] scripts@[k])@, selector@),
        decreases scripts@.len() - i,
    {
        if bytes_contain(&scripts[i], selector) {
            return Some(i);
        }
        i = i + 1;
    }
    None
}

} // verus!
