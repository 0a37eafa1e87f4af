//! The external programs the applet needs, and the summary shown when
//! some are missing.
use vstd::prelude::*;
use crate::text::{chars_of, join, join_exec, string_from_chars};

verus! {

/// A needed program and the package that provides it.
pub type Dep = (&'static str, &'static str);

/// The abstract value of a list of programs and packages.
pub open spec fn deps_view(v: Seq<Dep>) -> Seq<(Seq<char>, Seq<char>)> {
    v.map_values(|p: Dep| (p.0@, p.1@))
}

/// The programs needed: the clipboard tool, the typing tool and the
/// audio converter.
pub open spec fn spec_required() -> Seq<(Seq<char>, Seq<char>)> {
    seq![("wl-copy"@, "wl-clipboard"@), ("wtype"@, "wtype"@), ("ffmpeg"@, "ffmpeg"@)]
}

/// The programs needed, each with its package.
pub fn required() -> (r: Vec<Dep>)
    ensures
        deps_view(r@) == spec_required(),
{
    let r: Vec<Dep> = vec![("wl-copy", "wl-clipboard"), ("wtype", "wtype"), ("ffmpeg", "ffmpeg")];
    assert(deps_view(r@) =~= spec_required());
    r
}

/// The entries of `req` whose program is not installed.
pub open spec fn spec_missing(req: Seq<(Seq<char>, Seq<char>)>, installed: Seq<bool>) -> Seq<
    (Seq<char>, Seq<char>),
>
    decreases req.len(),
{
    if req.len() == 0 {
        Seq::empty()
    } else {
        let rest = spec_missing(req.drop_last(), installed.drop_last());
        if installed.last() {
            rest
        } else {
            rest.push(req.last())
        }
    }
}

/// The needed programs that are not installed; `installed[i]` tells
/// whether the `i`-th program of `required()` was found.
pub fn check_missing(installed: &[bool]) -> (r: Vec<Dep>)
    requires
        installed@.len() == spec_required().len(),
    ensures
        deps_view(r@) == spec_missing(spec_required(), installed@),
{
    let req = required();
    let ghost rv = deps_view(req@);
    let mut r: Vec<Dep> = Vec::new();
    let mut i: usize = 0;
    assert(rv.subrange(0, 0) =~= Seq::<(Seq<char>, Seq<char>)>::empty());
    assert(deps_view(r@) =~= Seq::<(Seq<char>, Seq<char>)>::empty());
    while i < req.len()
        invariant
            rv == deps_view(req@),
            rv == spec_required(),
            installed@.len() == rv.len(),
            i <= rv.len(),
            deps_view(r@) == spec_missing(rv.subrange(0, i as int), installed@.subrange(0, i as int)),
        decreases req.len() - i,
    {
        assert(rv.subrange(0, i + 1).drop_last() =~= rv.subrange(0, i as int));
        assert(installed@.subrange(0, i + 1).drop_last() =~= installed@.subrange(0, i as int));
        if !installed[i] {
            let ghost old_r = r@;
            r.push(req[i]);
            assert(deps_view(r@) =~= deps_view(old_r).push(rv[i as int]));
        }
        i += 1;
    }
    assert(rv.subrange(0, rv.len() as int) =~= rv);
    assert(installed@.subrange(0, rv.len() as int) =~= installed@);
    r
}

/// The arguments of the missing-dependencies message: the programs
/// joined by `, ` and the packages joined by spaces.
pub struct MissingDepsText {
    pub commands: String,
    pub packages: String,
}

/// The programs of a list joined by `, `.
pub open spec fn spec_commands_text(missing: Seq<(Seq<char>, Seq<char>)>) -> Seq<char> {
    join(missing.map_values(|p: (Seq<char>, Seq<char>)| p.0), ", "@)
}

/// The packages of a list joined by spaces.
pub open spec fn spec_packages_text(missing: Seq<(Seq<char>, Seq<char>)>) -> Seq<char> {
    join(missing.map_values(|p: (Seq<char>, Seq<char>)| p.1), " "@)
}

/// The arguments of the localized missing-dependencies summary.
pub fn format_missing_i18n(missing: &[Dep]) -> (r: MissingDepsText)
    ensures
        r.commands@ == spec_commands_text(deps_view(missing@)),
        r.packages@ == spec_packages_text(deps_view(missing@)),
{
    let ghost mv = deps_view(missing@);
    let mut cmds: Vec<Vec<char>> = Vec::new();
    let mut pkgs: Vec<Vec<char>> = Vec::new();
    let mut i: usize = 0;
    while i < missing.len()
        invariant
            mv == deps_view(missing@),
            i <= mv.len(),
            cmds@.len() == i,
            pkgs@.len() == i,
            forall|k: int| 0 <= k < i ==> #[trigger] cmds@[k]@ == mv[k].0,
            forall|k: int| 0 <= k < i ==> #[trigger] pkgs@[k]@ == mv[k].1,
        decreases missing.len() - i,
    {
        let (c, p) = missing[i];
        let cc = chars_of(c);
        let pc = chars_of(p);
        assert(cc@ == mv[i as int].0);
        assert(pc@ == mv[i as int].1);
        cmds.push(cc);
        pkgs.push(pc);
        i += 1;
    }
    assert(cmds@.map_values(|v: Vec<char>| v@) =~= mv.map_values(|p: (Seq<char>, Seq<char>)| p.0));
    assert(pkgs@.map_values(|v: Vec<char>| v@) =~= mv.map_values(|p: (Seq<char>, Seq<char>)| p.1));
    let comma = chars_of(", ");
    let space = chars_of(" ");
    let c = join_exec(cmds.as_slice(), comma.as_slice());
    let p = join_exec(pkgs.as_slice(), space.as_slice());
    MissingDepsText {
        commands: string_from_chars(c.as_slice()),
        packages: string_from_chars(p.as_slice()),
    }
}

} // verus!
