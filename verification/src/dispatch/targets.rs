//! What a dispatch can start: a single agent, or an orchestration of the project.

use crate::dispatch::naming;
use crate::path::{NativePath, PathModel};
use crate::places;
use crate::text;
use vstd::prelude::*;
use vstd::string::*;

verus! {

/// What the project's configuration file says.
#[derive(Debug)]
pub struct ProjectConfig {
    /// Interactive modes. None of them is a dispatch target.
    pub modes: Vec<ModeConfig>,
    pub orchestrations: Vec<OrchestrationConfig>,
}

/// An interactive mode.
#[derive(Debug)]
pub struct ModeConfig {
    pub name: String,
}

/// A team of agents that work together.
#[derive(Debug)]
pub struct OrchestrationConfig {
    /// May be empty: it is then named after the directory.
    pub name: String,
    pub roles: Vec<RoleConfig>,
}

/// One agent of a team.
#[derive(Debug)]
pub struct RoleConfig {
    pub name: String,
    pub command: String,
    pub start: bool,
}

/// What the listing reads of an orchestration: its name and the number of its roles.
pub struct OrchestrationModel {
    pub name: Seq<char>,
    pub roles: nat,
}

impl View for OrchestrationConfig {
    type V = OrchestrationModel;

    open spec fn view(&self) -> OrchestrationModel {
        OrchestrationModel { name: self.name@, roles: self.roles@.len() }
    }
}

/// The orchestrations of a configuration.
pub open spec fn orchestration_models(list: Seq<OrchestrationConfig>) -> Seq<OrchestrationModel> {
    list.map_values(|o: OrchestrationConfig| o@)
}

/// The orchestrations that are configured, none without a configuration.
pub open spec fn configured(config: Option<&ProjectConfig>) -> Seq<OrchestrationModel> {
    match config {
        Some(c) => orchestration_models(c.orchestrations@),
        None => Seq::empty(),
    }
}

/// The name that an orchestration goes by: its own, or else that of the directory.
pub open spec fn resolved_name(name: Seq<char>, dir: PathModel) -> Seq<char> {
    if name.len() == 0 {
        naming::stem(dir)
    } else {
        name
    }
}

/// The targets that `orchestrations` make: those with a role, by their names.
pub open spec fn offered(orchestrations: Seq<OrchestrationModel>, dir: PathModel) -> Seq<
    (Seq<char>, nat),
> {
    orchestrations.filter(|o: OrchestrationModel| o.roles > 0).map_values(
        |o: OrchestrationModel| (resolved_name(o.name, dir), o.roles),
    )
}

/// A list of targets: the name and the number of roles of each.
pub open spec fn target_models(targets: Seq<(String, usize)>) -> Seq<(Seq<char>, nat)> {
    targets.map_values(|t: (String, usize)| (t.0@, t.1 as nat))
}

/// The name that an orchestration goes by.
pub fn resolve_orchestration_name(name: &str, dir: &NativePath) -> (r: String)
    ensures
        r@ == resolved_name(name@, dir@),
{
    if name.unicode_len() == 0 {
        naming::stem_of(dir)
    } else {
        name.to_owned()
    }
}

/// The orchestrations that a dispatch out of `dir` could start, by name, with the number of
/// their roles. One without roles cannot be started and is left out.
pub fn available_orchestrations(config: Option<&ProjectConfig>, dir: &NativePath) -> (r: Vec<
    (String, usize),
>)
    ensures
        target_models(r@) == offered(configured(config), dir@),
{
    let mut out: Vec<(String, usize)> = Vec::new();
    match config {
        None => {
            proof {
                reveal(Seq::filter);
                assert(target_models(out@) =~= offered(configured(config), dir@));
            }
            out
        },
        Some(cfg) => {
            let ghost all = orchestration_models(cfg.orchestrations@);
            let mut i: usize = 0;
            proof {
                reveal(Seq::filter);
                assert(target_models(out@) =~= offered(all.take(0), dir@));
            }
            while i < cfg.orchestrations.len()
                invariant
                    i <= cfg.orchestrations@.len(),
                    all == orchestration_models(cfg.orchestrations@),
                    target_models(out@) == offered(all.take(i as int), dir@),
                decreases cfg.orchestrations@.len() - i,
            {
                let o = &cfg.orchestrations[i];
                let ghost before = out@;
                proof {
                    reveal(Seq::filter);
                    assert(all.take(i + 1).drop_last() =~= all.take(i as int));
                    assert(all.take(i + 1).last() == o@);
                }
                if o.roles.len() > 0 {
                    let name = resolve_orchestration_name(o.name.as_str(), dir);
                    out.push((name, o.roles.len()));
                    proof {
                        let pred = |o: OrchestrationModel| o.roles > 0;
                        assert(all.take(i + 1).filter(pred) =~= all.take(i as int).filter(
                            pred,
                        ).push(o@));
                        assert(target_models(out@) =~= target_models(before).push(
                            (name@, o.roles@.len()),
                        ));
                        assert(offered(all.take(i + 1), dir@) =~= offered(
                            all.take(i as int),
                            dir@,
                        ).push((name@, o.roles@.len())));
                    }
                }
                i = i + 1;
            }
            proof {
                assert(all.take(i as int) =~= all);
            }
            out
        },
    }
}

/// The line for one orchestration.
pub open spec fn target_line(target: (Seq<char>, nat)) -> Seq<char> {
    "  orchestration     '"@ + target.0 + "' — "@ + text::decimal(target.1)
        + " roles (--orchestration "@ + target.0 + ")"@
}

/// The two lines that begin every listing.
pub open spec fn opening_lines() -> Seq<Seq<char>> {
    seq!["Available dispatch targets:"@, "  single            one agent (--single)"@]
}

/// What ends a listing.
pub open spec fn closing_lines(targets: Seq<(Seq<char>, nat)>) -> Seq<Seq<char>> {
    if targets.len() == 0 {
        seq![
            ""@,
            "No orchestrations are defined here, so `single` is the only target."@,
            "Dispatch with `--single`."@,
        ]
    } else {
        seq![
            ""@,
            "Ask the user which they want before dispatching, then pass the matching flag."@,
        ]
    }
}

/// The lines for the orchestrations.
pub open spec fn target_lines(targets: Seq<(Seq<char>, nat)>) -> Seq<Seq<char>> {
    targets.map_values(|t: (Seq<char>, nat)| target_line(t))
}

/// The lines of the listing.
pub open spec fn listing_lines(targets: Seq<(Seq<char>, nat)>) -> Seq<Seq<char>> {
    opening_lines() + target_lines(targets) + closing_lines(targets)
}

fn line_for(name: &str, roles: usize) -> (line: String)
    ensures
        line@ == target_line((name@, roles as nat)),
{
    let mut line = "  orchestration     '".to_owned();
    line.append(name);
    line.append("' — ");
    line.append(text::decimal_text(roles as u64).as_str());
    line.append(" roles (--orchestration ");
    line.append(name);
    line.append(")");
    line
}

fn push_lines(out: &mut String, lines: &[&str])
    ensures
        final(out)@ == old(out)@ + text::unlines(lines@.map_values(|t: &str| t@)),
{
    let ghost all = lines@.map_values(|t: &str| t@);
    let ghost start = out@;
    let mut i: usize = 0;
    proof {
        assert(start + text::unlines(all.take(0)) =~= start);
    }
    while i < lines.len()
        invariant
            i <= lines@.len(),
            all == lines@.map_values(|t: &str| t@),
            out@ == start + text::unlines(all.take(i as int)),
        decreases lines@.len() - i,
    {
        text::push_line(out, lines[i]);
        proof {
            text::unlines_append(all.take(i as int), seq![lines@[i as int]@]);
            assert(all.take(i + 1) =~= all.take(i as int) + seq![lines@[i as int]@]);
            assert(out@ =~= start + text::unlines(all.take(i + 1)));
        }
        i = i + 1;
    }
    proof {
        assert(all.take(i as int) =~= all);
    }
}

/// The listing of `dispatch --list-targets`: a single agent always, then each orchestration.
pub fn render_available_targets(orchestrations: &[(String, usize)]) -> (r: String)
    ensures
        r@ == text::unlines(listing_lines(target_models(orchestrations@))),
{
    let ghost all = target_models(orchestrations@);
    let mut out = String::new();
    let opening: [&str; 2] = [
        "Available dispatch targets:",
        "  single            one agent (--single)",
    ];
    push_lines(&mut out, opening.as_slice());
    proof {
        assert(opening@.map_values(|t: &str| t@) =~= opening_lines());
        assert(out@ =~= text::unlines(opening_lines() + target_lines(all.take(0)))) by {
            assert(opening_lines() + target_lines(all.take(0)) =~= opening_lines());
        }
    }
    let mut i: usize = 0;
    while i < orchestrations.len()
        invariant
            i <= orchestrations@.len(),
            all == target_models(orchestrations@),
            out@ == text::unlines(opening_lines() + target_lines(all.take(i as int))),
        decreases orchestrations@.len() - i,
    {
        let line = line_for(orchestrations[i].0.as_str(), orchestrations[i].1);
        text::push_line(&mut out, line.as_str());
        proof {
            let before = opening_lines() + target_lines(all.take(i as int));
            text::unlines_append(before, seq![line@]);
            assert(opening_lines() + target_lines(all.take(i + 1)) =~= before + seq![line@]);
        }
        i = i + 1;
    }
    proof {
        assert(all.take(i as int) =~= all);
        text::unlines_append(opening_lines() + target_lines(all), closing_lines(all));
        assert(all.len() == orchestrations@.len());
    }
    if orchestrations.len() == 0 {
        let closing: [&str; 3] = [
            "",
            "No orchestrations are defined here, so `single` is the only target.",
            "Dispatch with `--single`.",
        ];
        push_lines(&mut out, closing.as_slice());
        proof {
            assert(closing@.map_values(|t: &str| t@) =~= closing_lines(all));
        }
    } else {
        let closing: [&str; 2] = [
            "",
            "Ask the user which they want before dispatching, then pass the matching flag.",
        ];
        push_lines(&mut out, closing.as_slice());
        proof {
            assert(closing@.map_values(|t: &str| t@) =~= closing_lines(all));
        }
    }
    out
}

// ---------------------------------------------------------------------------
// Laws
// ---------------------------------------------------------------------------

/// Each orchestration with a role is offered, in the order of the configuration, and one
/// without roles never is.
pub proof fn every_role_bearing_orchestration_is_offered(
    orchestrations: Seq<OrchestrationModel>,
    dir: PathModel,
)
    ensures
        forall|i: int|
            0 <= i < orchestrations.len() && (#[trigger] orchestrations[i]).roles > 0 ==> offered(
                orchestrations,
                dir,
            ).contains((resolved_name(orchestrations[i].name, dir), orchestrations[i].roles)),
        forall|k: int|
            0 <= k < offered(orchestrations, dir).len() ==> (#[trigger] offered(
                orchestrations,
                dir,
            )[k]).1 > 0,
{
    let pred = |o: OrchestrationModel| o.roles > 0;
    let kept = orchestrations.filter(pred);
    assert forall|i: int|
        0 <= i < orchestrations.len() && (#[trigger] orchestrations[i]).roles > 0 implies offered(
        orchestrations,
        dir,
    ).contains((resolved_name(orchestrations[i].name, dir), orchestrations[i].roles)) by {
        orchestrations.lemma_filter_contains(pred, i);
        let k = choose|k: int| 0 <= k < kept.len() && kept[k] == orchestrations[i];
        assert(offered(orchestrations, dir)[k] == (
            resolved_name(orchestrations[i].name, dir),
            orchestrations[i].roles,
        ));
    }
    assert forall|k: int| 0 <= k < offered(orchestrations, dir).len() implies (
    #[trigger] offered(orchestrations, dir)[k]).1 > 0 by {
        orchestrations.lemma_filter_pred(pred, k);
    }
}

/// A single agent is offered whatever the project defines, and every offered orchestration
/// has a line of its own.
pub proof fn single_is_always_listed(targets: Seq<(Seq<char>, nat)>)
    ensures
        listing_lines(targets)[1] == "  single            one agent (--single)"@,
        listing_lines(targets).len() == 2 + targets.len() + closing_lines(targets).len(),
        forall|i: int|
            2 <= i < 2 + targets.len() ==> #[trigger] listing_lines(targets)[i] == target_line(
                targets[i - 2],
            ),
{
}

/// An orchestration goes by its own name, whatever the directory; one without a name goes by
/// that of the directory.
pub proof fn an_unnamed_orchestration_is_called_after_its_directory(
    name: Seq<char>,
    dir: PathModel,
)
    ensures
        name.len() > 0 ==> resolved_name(name, dir) == name,
        name.len() == 0 && dir.file_name() is Some ==> resolved_name(name, dir)
            == dir.file_name()->0,
        name.len() == 0 && dir.file_name() is None ==> resolved_name(name, dir) == "repo"@,
{
}

/// The orchestrations with a role are offered in the order of the configuration, each once,
/// under the name that it goes by and with the number of its roles; and no other one is.
pub proof fn orchestrations_are_offered_in_order(
    orchestrations: Seq<OrchestrationModel>,
    dir: PathModel,
) -> (at: Seq<int>)
    ensures
        places::are_the_places(at, orchestrations.len(), |i: int| orchestrations[i].roles > 0),
        offered(orchestrations, dir).len() == at.len(),
        forall|k: int|
            0 <= k < at.len() ==> (#[trigger] offered(orchestrations, dir)[k]).0 == resolved_name(
                orchestrations[at[k]].name,
                dir,
            ) && offered(orchestrations, dir)[k].1 == orchestrations[at[k]].roles,
    decreases orchestrations.len(),
{
    reveal(Seq::filter);
    let wanted = |i: int| orchestrations[i].roles > 0;
    let pred = |o: OrchestrationModel| o.roles > 0;
    if orchestrations.len() == 0 {
        Seq::empty()
    } else {
        let front = orchestrations.drop_last();
        let n = (orchestrations.len() - 1) as nat;
        let at = orchestrations_are_offered_in_order(front, dir);
        places::same_places(at, n, |i: int| front[i].roles > 0, wanted);
        let more = places::places_of_a_longer_list(at, n, wanted);
        assert forall|k: int| 0 <= k < more.len() implies (#[trigger] offered(
            orchestrations,
            dir,
        )[k]).0 == resolved_name(orchestrations[more[k]].name, dir) && offered(
            orchestrations,
            dir,
        )[k].1 == orchestrations[more[k]].roles by {
            if k < at.len() {
                assert(orchestrations.filter(pred)[k] == front.filter(pred)[k]);
                assert(offered(orchestrations, dir)[k] == offered(front, dir)[k]);
                assert(front[at[k]] == orchestrations[at[k]]);
            }
        }
        more
    }
}

/// Each offered orchestration is listed under its name, with the number of its roles and the
/// flag that starts it. Behind the targets the listing says how to choose, or that there is
/// nothing to choose.
pub proof fn a_target_is_listed_with_its_flag(targets: Seq<(Seq<char>, nat)>, i: int)
    requires
        0 <= i < targets.len(),
    ensures
        listing_lines(targets)[0] == "Available dispatch targets:"@,
        listing_lines(targets)[i + 2] == "  orchestration     '"@ + targets[i].0 + "' — "@
            + text::decimal(targets[i].1) + " roles (--orchestration "@ + targets[i].0 + ")"@,
        listing_lines(targets).last()
            == "Ask the user which they want before dispatching, then pass the matching flag."@,
        listing_lines(Seq::empty()).last() == "Dispatch with `--single`."@,
{
}

} // verus!
