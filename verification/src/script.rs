use vstd::prelude::*;

use crate::package::Phase;
use crate::package::PhaseName;
use crate::repository::Package;
use crate::repository::PhaseView;

verus! {

/// The build script of one job.
///
/// The script is rendered deterministically from the shebang, the
/// configured phase order and the package's phases: the shebang line,
/// then the text of every configured phase the package defines, each
/// followed by one newline.  The rendered text is stored verbatim in the
/// ledger and serves as a reuse key, so two renders of the same inputs are
/// equal by construction.

/// The first phase entry with this name, if any.
pub open spec fn phase_lookup(phases: Seq<(Seq<char>, PhaseView)>, name: Seq<char>) -> Option<
    PhaseView,
>
    decreases phases.len(),
{
    if phases.len() == 0 {
        Option::None
    } else if phases[0].0 == name {
        Option::Some(phases[0].1)
    } else {
        phase_lookup(phases.skip(1), name)
    }
}

/// What one configured phase contributes to the script.
pub open spec fn phase_text(phases: Seq<(Seq<char>, PhaseView)>, name: Seq<char>) -> Seq<char> {
    match phase_lookup(phases, name) {
        Option::Some(PhaseView::Text(t)) => t + seq!['\n'],
        _ => Seq::empty(),
    }
}

/// The script of the first `k` configured phases.
pub open spec fn phases_script(
    phases: Seq<(Seq<char>, PhaseView)>,
    names: Seq<Seq<char>>,
    k: int,
) -> Seq<char>
    decreases k,
{
    if k <= 0 {
        Seq::empty()
    } else {
        phases_script(phases, names, k - 1) + phase_text(phases, names[k - 1])
    }
}

/// The whole rendered script.
pub open spec fn script_of(
    shebang: Seq<char>,
    names: Seq<Seq<char>>,
    phases: Seq<(Seq<char>, PhaseView)>,
) -> Seq<char> {
    shebang + seq!['\n'] + phases_script(phases, names, names.len() as int)
}

/// Every configured phase the package defines holds script text, not a
/// path to a script file.
pub open spec fn all_phases_inline(
    phases: Seq<(Seq<char>, PhaseView)>,
    names: Seq<Seq<char>>,
) -> bool {
    forall|k: int|
        0 <= k < names.len() ==> !(#[trigger] phase_lookup(phases, names[k]) matches Option::Some(
            PhaseView::Path(_),
        ))
}

/// Why the script could not be rendered.
#[derive(Clone, Copy, PartialEq, Eq, Structural, Debug)]
pub enum ScriptError {
    /// A configured phase of this package points at a script file instead
    /// of holding its text.
    PhaseNotInline,
}

/// Looks a phase up by name in the package's phase list.
fn lookup_phase<'a>(phases: &'a Vec<(PhaseName, Phase)>, name: &PhaseName) -> (r: Option<
    &'a Phase,
>)
    ensures
        ({
            let spec_phases = phases@.map_values(|p: (PhaseName, Phase)| (p.0@, p.1@));
            match r {
                Option::Some(ph) => phase_lookup(spec_phases, name@) == Option::Some(ph@),
                Option::None => phase_lookup(spec_phases, name@) is None,
            }
        }),
{
    let ghost spec_phases = phases@.map_values(|p: (PhaseName, Phase)| (p.0@, p.1@));
    proof {
        assert(spec_phases.skip(0) =~= spec_phases);
    }
    let n = phases.len();
    let mut i: usize = 0;
    while i < n
        invariant
            n == phases@.len(),
            i <= n,
            spec_phases == phases@.map_values(|p: (PhaseName, Phase)| (p.0@, p.1@)),
            phase_lookup(spec_phases, name@) == phase_lookup(spec_phases.skip(i as int), name@),
        decreases n - i,
    {
        proof {
            assert(spec_phases.skip(i as int)[0] == spec_phases[i as int]);
            assert(spec_phases.skip(i as int).skip(1) =~= spec_phases.skip(i as int + 1));
        }
        if phases[i].0 == *name {
            proof {
                assert(spec_phases.skip(i as int)[0].0 == name@);
            }
            return Option::Some(&phases[i].1);
        }
        proof {
            assert(spec_phases.skip(i as int)[0].0 != name@);
        }
        i = i + 1;
    }
    proof {
        assert(spec_phases.skip(n as int) =~= Seq::<(Seq<char>, PhaseView)>::empty());
    }
    Option::None
}

/// Renders the build script for one package: the shebang line, then the
/// text of each configured phase the package defines, in configured
/// order, one newline after each.  Fails exactly when some configured
/// phase of the package refers to a script file instead of inline text.
pub fn render_script(
    shebang: &String,
    available_phases: &Vec<PhaseName>,
    pkg: &Package,
) -> (r: Result<String, ScriptError>)
    ensures
        ({
            let names = available_phases@.map_values(|n: PhaseName| n@);
            &&& r is Ok <==> all_phases_inline(pkg@.phases, names)
            &&& r matches Ok(s) ==> s@ == script_of(shebang@, names, pkg@.phases)
        }),
{
    let ghost names = available_phases@.map_values(|n: PhaseName| n@);
    let newline: &str = "\n";
    proof {
        reveal_strlit("\n");
    }
    let mut script = shebang.clone().concat(newline);
    proof {
        assert(script@ =~= shebang@ + seq!['\n'] + phases_script(pkg@.phases, names, 0));
    }
    let n = available_phases.len();
    let mut i: usize = 0;
    while i < n
        invariant
            n == available_phases@.len(),
            i <= n,
            names == available_phases@.map_values(|n: PhaseName| n@),
            newline@ == seq!['\n'],
            script@ == shebang@ + seq!['\n'] + phases_script(pkg@.phases, names, i as int),
            forall|k: int|
                0 <= k < i ==> !(#[trigger] phase_lookup(pkg@.phases, names[k]) matches Option::Some(
                    PhaseView::Path(_),
                )),
        decreases n - i,
    {
        let name = &available_phases[i];
        match lookup_phase(pkg.phases(), name) {
            Option::Some(Phase::Text(t)) => {
                script = script.concat(t.as_str()).concat(newline);
                proof {
                    assert(phase_text(pkg@.phases, names[i as int]) == t@ + seq!['\n']);
                    assert(script@ =~= shebang@ + seq!['\n'] + phases_script(
                        pkg@.phases,
                        names,
                        i as int + 1,
                    ));
                }
            },
            Option::Some(Phase::Path(_)) => {
                return Err(ScriptError::PhaseNotInline);
            },
            Option::None => {
                proof {
                    assert(phase_text(pkg@.phases, names[i as int]) == Seq::<char>::empty());
                    assert(script@ =~= shebang@ + seq!['\n'] + phases_script(
                        pkg@.phases,
                        names,
                        i as int + 1,
                    ));
                }
            },
        }
        i = i + 1;
    }
    Ok(script)
}

} // verus!
