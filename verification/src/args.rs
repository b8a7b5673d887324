//! The tool's own command-line arguments, `--minimize-...`; the others go
//! to the MiniRust machine or to rustc.
use vstd::prelude::*;

verus! {

/// What the tool's own arguments ask for.
pub struct MinimizeConfig {
    /// The argument of `--minimize-dump=...`, if given.
    pub dump: Option<String>,
    /// Whether to check that serializing the program to JSON and back gives it back.
    pub check_json_roundtrip: bool,
}

/// A wrong argument of the tool.
pub enum ArgError {
    /// `--minimize-dump` was given twice.
    DumpTwice,
    /// An unknown `--minimize-...` argument, given without the prefix.
    Unknown(String),
}

impl ArgError {
    /// The message for the user.
    pub fn message(&self) -> (r: String)
        ensures
            self is DumpTwice ==> r@ == "Argument --minimize-dump was given twice!"@,
            self is Unknown ==> r@ == "Unknown minimize argument --minimize-"@ + self->Unknown_0@ + "!"@,
    {
        match self {
            ArgError::DumpTwice => "Argument --minimize-dump was given twice!".to_owned(),
            ArgError::Unknown(arg) => {
                let mut m = "Unknown minimize argument --minimize-".to_owned();
                m.append(arg.as_str());
                m.append("!");
                m
            },
        }
    }
}

/// `s` starts with `p`.
pub open spec fn has_prefix(s: Seq<char>, p: Seq<char>) -> bool {
    p.len() <= s.len() && s.subrange(0, p.len() as int) == p
}

/// The rest of `s` after the prefix `p`, if `s` starts with it.
pub fn strip_prefix<'a>(s: &'a str, p: &str) -> (r: Option<&'a str>)
    ensures
        has_prefix(s@, p@) ==> (r matches Some(rest) && rest@ == s@.skip(p@.len() as int)),
        !has_prefix(s@, p@) ==> r is None,
{
    let n = s.unicode_len();
    let m = p.unicode_len();
    if m > n {
        return None;
    }
    let mut i: usize = 0;
    while i < m
        invariant
            n == s@.len(),
            m == p@.len(),
            m <= n,
            i <= m,
            forall|j: int| 0 <= j < i ==> s@[j] == p@[j],
        decreases m - i,
    {
        if s.get_char(i) != p.get_char(i) {
            proof {
                assert(s@.subrange(0, m as int)[i as int] != p@[i as int]);
            }
            return None;
        }
        i = i + 1;
    }
    proof {
        assert(s@.subrange(0, m as int) =~= p@);
    }
    let rest = s.substring_char(m, n);
    proof {
        assert(rest@ =~= s@.skip(m as int));
    }
    Some(rest)
}

/// What an argument does to the tool's configuration: a `--minimize-`
/// argument is taken (`Ok(true)`) or wrong; any other is left for others
/// (`Ok(false)`).
pub fn parse_arg(config: &mut MinimizeConfig, arg: &str) -> (r: Result<bool, ArgError>)
    ensures
        !has_prefix(arg@, "--minimize-"@) ==> r == Ok::<bool, ArgError>(false) && *final(config) == *old(config),
        has_prefix(arg@, "--minimize-"@) ==> {
            let rest = arg@.skip("--minimize-"@.len() as int);
            if has_prefix(rest, "dump="@) {
                if old(config).dump is Some {
                    &&& r matches Err(ArgError::DumpTwice)
                    &&& *final(config) == *old(config)
                } else {
                    &&& r == Ok::<bool, ArgError>(true)
                    &&& (final(config).dump matches Some(d) && d@ == rest.skip("dump="@.len() as int))
                    &&& final(config).check_json_roundtrip == old(config).check_json_roundtrip
                }
            } else if rest == "check-json-roundtrip"@ {
                &&& r == Ok::<bool, ArgError>(true)
                &&& final(config).check_json_roundtrip
                &&& final(config).dump == old(config).dump
            } else {
                &&& (r matches Err(ArgError::Unknown(s)) && s@ == rest)
                &&& *final(config) == *old(config)
            }
        },
{
    match strip_prefix(arg, "--minimize-") {
        Some(rest) => match strip_prefix(rest, "dump=") {
            Some(dump) => {
                if config.dump.is_some() {
                    Err(ArgError::DumpTwice)
                } else {
                    config.dump = Some(dump.to_owned());
                    Ok(true)
                }
            },
            None => {
                if crate::bb::str_eq(rest, "check-json-roundtrip") {
                    config.check_json_roundtrip = true;
                    Ok(true)
                } else {
                    Err(ArgError::Unknown(rest.to_owned()))
                }
            },
        },
        None => Ok(false),
    }
}

/// The characters of each string.
pub open spec fn views(v: Seq<String>) -> Seq<Seq<char>> {
    Seq::new(v.len(), |i: int| v[i]@)
}

/// The flags rustc gets from the tool, as Miri does, so that the MIR keeps
/// all its undefined behavior; rustc's own UB checks are off.
pub open spec fn spec_default_args() -> Seq<Seq<char>> {
    seq![
        "--cfg=miri"@,
        "-Zalways-encode-mir"@,
        "-Zextra-const-ub-checks"@,
        "-Zmir-emit-retag"@,
        "-Zmir-opt-level=0"@,
        "-Zmir-enable-passes=-CheckAlignment"@,
        "-Zmir-preserve-ub"@,
        "-Zub-checks=false"@,
    ]
}

pub fn default_args() -> (r: Vec<String>)
    ensures
        views(r@) == spec_default_args(),
{
    let mut r: Vec<String> = Vec::new();
    r.push("--cfg=miri".to_owned());
    r.push("-Zalways-encode-mir".to_owned());
    r.push("-Zextra-const-ub-checks".to_owned());
    r.push("-Zmir-emit-retag".to_owned());
    r.push("-Zmir-opt-level=0".to_owned());
    r.push("-Zmir-enable-passes=-CheckAlignment".to_owned());
    r.push("-Zmir-preserve-ub".to_owned());
    r.push("-Zub-checks=false".to_owned());
    assert(views(r@) =~= spec_default_args());
    r
}

/// The command line with the default flags right after the program name.
pub fn with_default_args(args: Vec<String>) -> (r: Vec<String>)
    requires
        args@.len() >= 1,
    ensures
        views(r@) == views(args@).take(1) + spec_default_args() + views(args@).skip(1),
{
    let mut r: Vec<String> = Vec::new();
    let mut rest = args;
    let first = rest.remove(0);
    r.push(first);
    let mut defaults = default_args();
    r.append(&mut defaults);
    r.append(&mut rest);
    assert(views(r@) =~= views(args@).take(1) + spec_default_args() + views(args@).skip(1));
    r
}

/// The arguments only ask rustc for its version or other information.
pub open spec fn spec_is_probe(args: Seq<Seq<char>>) -> bool {
    exists|i: int| 0 <= i < args.len() && (args[i] == "-vV"@ || has_prefix(#[trigger] args[i], "--print="@))
}

pub fn is_version_probe(args: &Vec<String>) -> (r: bool)
    ensures
        r == spec_is_probe(views(args@)),
{
    let mut i: usize = 0;
    while i < args.len()
        invariant
            i <= args@.len(),
            forall|j: int| 0 <= j < i ==> !(args@[j]@ == "-vV"@ || has_prefix(#[trigger] args@[j]@, "--print="@)),
        decreases args@.len() - i,
    {
        let a = args[i].as_str();
        if crate::bb::str_eq(a, "-vV") || strip_prefix(a, "--print=").is_some() {
            assert(views(args@)[i as int] == args@[i as int]@);
            return true;
        }
        i = i + 1;
    }
    assert forall|j: int| 0 <= j < views(args@).len() implies !(views(args@)[j] == "-vV"@ || has_prefix(#[trigger] views(args@)[j], "--print="@)) by {
        assert(views(args@)[j] == args@[j]@);
    }
    false
}

/// What to do about the sysroot for the standard library's MIR.
#[derive(Clone, Copy, PartialEq, Eq, Structural, Debug)]
pub enum SysrootAction {
    /// Build it, and do nothing else.
    BuildOnly,
    /// Leave it alone.
    Skip,
    /// Build it if needed, and compile against it.
    BuildAndUse,
}

/// The sysroot action for the value of `MINIMIZE_BUILD_SYSROOT`: "only"
/// and "off" are obeyed; otherwise the sysroot is used, but for a mere
/// probe of rustc's version (which the sysroot build itself makes).
pub fn sysroot_action(mode: Option<&str>, probe: bool) -> (r: SysrootAction)
    ensures
        (mode matches Some(m) && m@ == "only"@) ==> r == SysrootAction::BuildOnly,
        (mode matches Some(m) && m@ == "off"@) ==> r == SysrootAction::Skip,
        !(mode matches Some(m) && (m@ == "only"@ || m@ == "off"@)) ==> r == (if probe {
            SysrootAction::Skip
        } else {
            SysrootAction::BuildAndUse
        }),
{
    proof {
        reveal_strlit("only");
        reveal_strlit("off");
        assert("only"@.len() != "off"@.len());
    }
    match mode {
        Some(m) => {
            if crate::bb::str_eq(m, "only") {
                return SysrootAction::BuildOnly;
            }
            if crate::bb::str_eq(m, "off") {
                return SysrootAction::Skip;
            }
        },
        None => {},
    }
    if probe {
        SysrootAction::Skip
    } else {
        SysrootAction::BuildAndUse
    }
}

/// rustc is to build the `panic_abort` crate.
pub open spec fn spec_uses_panic_abort(args: Seq<Seq<char>>) -> bool {
    exists|i: int| 0 <= i < args.len() - 1 && #[trigger] args[i] == "--crate-name"@ && args[i + 1] == "panic_abort"@
}

pub fn uses_panic_abort(args: &Vec<String>) -> (r: bool)
    ensures
        r == spec_uses_panic_abort(views(args@)),
{
    let n = args.len();
    let mut i: usize = 0;
    while n > 0 && i < n - 1
        invariant
            n == args@.len(),
            forall|j: int| 0 <= j < i && j < n - 1 ==> !(#[trigger] args@[j]@ == "--crate-name"@ && args@[j + 1]@ == "panic_abort"@),
        decreases n - i,
    {
        if crate::bb::str_eq(args[i].as_str(), "--crate-name") && crate::bb::str_eq(args[i + 1].as_str(), "panic_abort") {
            assert(views(args@)[i as int] == args@[i as int]@);
            assert(views(args@)[i + 1] == args@[i + 1]@);
            return true;
        }
        i = i + 1;
    }
    assert forall|j: int| 0 <= j < views(args@).len() - 1 implies !(#[trigger] views(args@)[j] == "--crate-name"@ && views(args@)[j + 1] == "panic_abort"@) by {
        assert(views(args@)[j] == args@[j]@);
        assert(views(args@)[j + 1] == args@[j + 1]@);
    }
    false
}

/// The arguments for rustc itself: the `panic_abort` crate is built with
/// `-Cpanic=abort`, given right after the program name.
pub fn be_rustc_args(args: Vec<String>) -> (r: Vec<String>)
    ensures
        spec_uses_panic_abort(views(args@)) ==> views(r@) == views(args@).insert(1, "-Cpanic=abort"@),
        !spec_uses_panic_abort(views(args@)) ==> r@ == args@,
{
    let mut args = args;
    let ghost before = args@;
    if uses_panic_abort(&args) {
        args.insert(1, "-Cpanic=abort".to_owned());
        assert(views(args@) =~= views(before).insert(1, "-Cpanic=abort"@));
    }
    args
}

} // verus!
