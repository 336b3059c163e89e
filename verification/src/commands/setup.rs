//! `kit setup`: which installers the configured tools need, which of them are missing,
//! and the rc block.

use vstd::prelude::*;
use crate::config::{Config, SourceKind, source_kind_name};
use crate::system;

verus! {

/// Some configured tool is installed from `kind`.
pub open spec fn config_uses(config: Config, kind: SourceKind) -> bool {
    exists|i: int| 0 <= i < config.tools.len() && (#[trigger] config.tools@[i]).tool.spec_kind() == kind
}

/// The sources the configuration needs, in the order brew, mise, curl.
pub open spec fn required_sources_of(config: Config) -> Seq<SourceKind> {
    let b = if config_uses(config, SourceKind::Brew) { seq![SourceKind::Brew] } else { seq![] };
    let m = if config_uses(config, SourceKind::Mise) { seq![SourceKind::Mise] } else { seq![] };
    let c = if config_uses(config, SourceKind::Curl) { seq![SourceKind::Curl] } else { seq![] };
    b + m + c
}

/// The sources that the configured tools are installed from, each once, in the order
/// brew, mise, curl.
pub fn required_sources(config: &Config) -> (r: Vec<SourceKind>)
    ensures
        r@ == required_sources_of(*config),
{
    let mut brew = false;
    let mut mise = false;
    let mut curl = false;
    let mut i: usize = 0;
    while i < config.tools.len()
        invariant
            i <= config.tools.len(),
            brew == exists|j: int| 0 <= j < i && (#[trigger] config.tools@[j]).tool.spec_kind() == SourceKind::Brew,
            mise == exists|j: int| 0 <= j < i && (#[trigger] config.tools@[j]).tool.spec_kind() == SourceKind::Mise,
            curl == exists|j: int| 0 <= j < i && (#[trigger] config.tools@[j]).tool.spec_kind() == SourceKind::Curl,
        decreases config.tools.len() - i,
    {
        match config.tools[i].tool.kind() {
            SourceKind::Brew => {
                brew = true;
            },
            SourceKind::Mise => {
                mise = true;
            },
            SourceKind::Curl => {
                curl = true;
            },
        }
        i = i + 1;
    }
    let mut r: Vec<SourceKind> = Vec::new();
    if brew {
        r.push(SourceKind::Brew);
    }
    if mise {
        r.push(SourceKind::Mise);
    }
    if curl {
        r.push(SourceKind::Curl);
    }
    assert(r@ =~= required_sources_of(*config));
    r
}

/// The sources among `required` that are not available, in order.
pub open spec fn missing_among(required: Seq<SourceKind>, available: Seq<bool>) -> Seq<SourceKind>
    decreases required.len(),
{
    if required.len() == 0 {
        Seq::empty()
    } else {
        let rest = missing_among(required.drop_last(), available.drop_last());
        if available.last() {
            rest
        } else {
            rest.push(required.last())
        }
    }
}

/// The sources among `required` whose availability flag (in the same position) is false.
pub fn missing_sources_with(required: &Vec<SourceKind>, available: &Vec<bool>) -> (r: Vec<SourceKind>)
    requires
        required.len() == available.len(),
    ensures
        r@ == missing_among(required@, available@),
{
    let mut r: Vec<SourceKind> = Vec::new();
    let mut i: usize = 0;
    while i < required.len()
        invariant
            i <= required.len(),
            required.len() == available.len(),
            r@ == missing_among(required@.take(i as int), available@.take(i as int)),
        decreases required.len() - i,
    {
        assert(required@.take(i + 1).drop_last() =~= required@.take(i as int));
        assert(available@.take(i + 1).drop_last() =~= available@.take(i as int));
        if !available[i] {
            r.push(required[i]);
        }
        i = i + 1;
    }
    assert(required@.take(required.len() as int) =~= required@);
    assert(available@.take(available.len() as int) =~= available@);
    r
}

/// The required sources whose program `which` does not find, in the order of `required`:
/// `missing_among` for one found-or-not flag per required source. What is on disk decides
/// each flag, so which flags are set is not stated.
pub fn missing_sources(required: &Vec<SourceKind>) -> (r: Vec<SourceKind>)
    ensures
        exists|available: Seq<bool>|
            available.len() == required.len() && r@ == missing_among(required@, available),
        forall|k: int| 0 <= k < r.len() ==> required@.contains(#[trigger] r@[k]),
        exists|available: Seq<bool>|
            available.len() == required.len() && (forall|k: int|
                0 <= k < available.len() ==> system::which_found(
                    source_kind_name(#[trigger] required@[k]),
                    available[k],
                )) && r@ == missing_among(required@, available),
{
    let mut available: Vec<bool> = Vec::new();
    let mut i: usize = 0;
    while i < required.len()
        invariant
            i <= required.len(),
            available.len() == i,
            forall|k: int|
                0 <= k < i ==> system::which_found(
                    source_kind_name(#[trigger] required@[k]),
                    available@[k],
                ),
        decreases required.len() - i,
    {
        let name = required[i].name();
        let found = system::which(name);
        proof {
            assert(call_ensures(system::which, (name,), found));
            assert(system::which_found(source_kind_name(required@[i as int]), found is Some));
        }
        available.push(found.is_some());
        i = i + 1;
    }
    let r = missing_sources_with(required, &available);
    proof {
        lemma_missing_among_required(required@, available@);
    }
    r
}

/// A source is reported missing exactly when it is required at some position whose
/// flag says it was not found.
pub proof fn lemma_missing_among_exact(
    required: Seq<SourceKind>,
    available: Seq<bool>,
    x: SourceKind,
)
    requires
        required.len() == available.len(),
    ensures
        missing_among(required, available).contains(x) <==> exists|k: int|
            0 <= k < required.len() && #[trigger] required[k] == x && !available[k],
    decreases required.len(),
{
    if required.len() > 0 {
        let rq = required.drop_last();
        let av = available.drop_last();
        let n = required.len() - 1;
        lemma_missing_among_exact(rq, av, x);
        let rest = missing_among(rq, av);
        let m = missing_among(required, available);
        if m.contains(x) {
            let w = choose|w: int| 0 <= w < m.len() && m[w] == x;
            if w < rest.len() {
                if !available.last() {
                    assert(m == rest.push(required.last()));
                }
                assert(rest[w] == x);
                assert(rest.contains(x));
                let k = choose|k: int| 0 <= k < rq.len() && #[trigger] rq[k] == x && !av[k];
                assert(required[k] == x && !available[k]);
            } else {
                assert(m == rest.push(required.last()));
                assert(required[n] == x && !available[n]);
            }
        }
        if exists|k: int| 0 <= k < required.len() && #[trigger] required[k] == x && !available[k] {
            let k = choose|k: int|
                0 <= k < required.len() && #[trigger] required[k] == x && !available[k];
            if k < n {
                assert(rq[k] == x && !av[k]);
                assert(rest.contains(x));
                let w = choose|w: int| 0 <= w < rest.len() && rest[w] == x;
                if available.last() {
                    assert(m == rest);
                } else {
                    assert(m == rest.push(required.last()));
                    assert(m[w] == x);
                }
            } else {
                assert(m == rest.push(required.last()));
                assert(m[rest.len() as int] == x);
            }
        }
    }
}

/// What `missing_among` returns is drawn from `required`.
pub proof fn lemma_missing_among_required(required: Seq<SourceKind>, available: Seq<bool>)
    requires
        required.len() == available.len(),
    ensures
        forall|k: int|
            0 <= k < missing_among(required, available).len() ==> required.contains(
                #[trigger] missing_among(required, available)[k],
            ),
    decreases required.len(),
{
    if required.len() > 0 {
        let rest = missing_among(required.drop_last(), available.drop_last());
        lemma_missing_among_required(required.drop_last(), available.drop_last());
        assert forall|k: int|
            0 <= k < missing_among(required, available).len() implies required.contains(
            #[trigger] missing_among(required, available)[k],
        ) by {
            if k < rest.len() {
                let x = rest[k];
                assert(required.drop_last().contains(x));
                let w = choose|w: int| 0 <= w < required.drop_last().len() && required.drop_last()[w] == x;
                assert(required[w] == x);
            } else {
                assert(required[required.len() - 1] == required.last());
            }
        }
    }
}

/// What `kit setup` does once the installers have been looked for.
#[derive(Debug, Clone, PartialEq)]
pub enum SetupStep {
    /// Stop and name the missing installers.
    Stop(Vec<SourceKind>),
    /// Go on and write the block into the shell rc.
    Inject,
}

/// The step for the required installers and whether each was found: stop with the
/// missing ones, in order, where there are any; else go on.
pub fn setup_step_with(required: &Vec<SourceKind>, available: &Vec<bool>) -> (r: SetupStep)
    requires
        required.len() == available.len(),
    ensures
        missing_among(required@, available@).len() == 0 ==> r == SetupStep::Inject,
        missing_among(required@, available@).len() > 0 ==> (r matches SetupStep::Stop(m) && m@
            == missing_among(required@, available@)),
{
    let missing = missing_sources_with(required, available);
    if missing.len() == 0 {
        SetupStep::Inject
    } else {
        SetupStep::Stop(missing)
    }
}

/// The step for the required installers, each looked for on `PATH` (by `which`): stop
/// with those not found, in order, or go on where all are found. What is on disk decides
/// which are found.
pub fn setup_step(required: &Vec<SourceKind>) -> (r: SetupStep)
    ensures
        exists|available: Seq<bool>|
            available.len() == required.len() && (if missing_among(required@, available).len()
                == 0 {
                r == SetupStep::Inject
            } else {
                (r matches SetupStep::Stop(m) && m@ == missing_among(required@, available))
            }),
        exists|available: Seq<bool>|
            available.len() == required.len() && (forall|k: int|
                0 <= k < available.len() ==> system::which_found(
                    source_kind_name(#[trigger] required@[k]),
                    available[k],
                )) && (if missing_among(required@, available).len() == 0 {
                r == SetupStep::Inject
            } else {
                (r matches SetupStep::Stop(m) && m@ == missing_among(required@, available))
            }),
{
    let missing = missing_sources(required);
    if missing.len() == 0 {
        SetupStep::Inject
    } else {
        SetupStep::Stop(missing)
    }
}

/// Where to get a missing source from.
pub open spec fn install_hint_text(kind: SourceKind) -> Seq<char> {
    match kind {
        SourceKind::Brew => "Install from https://brew.sh"@,
        SourceKind::Mise => "Install from https://mise.jdx.dev"@,
        SourceKind::Curl => "Install via your system package manager"@,
    }
}

/// Where to get a missing source from.
pub fn install_hint(kind: SourceKind) -> (r: &'static str)
    ensures
        r@ == install_hint_text(kind),
{
    match kind {
        SourceKind::Brew => "Install from https://brew.sh",
        SourceKind::Mise => "Install from https://mise.jdx.dev",
        SourceKind::Curl => "Install via your system package manager",
    }
}

/// The source names joined by `", "`.
pub open spec fn joined_names(kinds: Seq<SourceKind>) -> Seq<char>
    decreases kinds.len(),
{
    if kinds.len() == 0 {
        Seq::empty()
    } else if kinds.len() == 1 {
        source_kind_name(kinds[0])
    } else {
        joined_names(kinds.drop_last()) + ", "@ + source_kind_name(kinds.last())
    }
}

/// The source names joined by `", "`, as setup lists the dependencies that are present.
pub fn join_names(kinds: &Vec<SourceKind>) -> (r: String)
    ensures
        r@ == joined_names(kinds@),
{
    let mut r = String::new();
    let mut i: usize = 0;
    while i < kinds.len()
        invariant
            i <= kinds.len(),
            r@ == joined_names(kinds@.take(i as int)),
        decreases kinds.len() - i,
    {
        let ghost before = r@;
        assert(kinds@.take(i + 1).drop_last() =~= kinds@.take(i as int));
        if i > 0 {
            r.push_str(", ");
        }
        r.push_str(kinds[i].name());
        i = i + 1;
        assert(i == 1 ==> kinds@.take(i as int)[0] == kinds@[0]);
        assert(i == 1 ==> before =~= Seq::<char>::empty());
        assert(r@ =~= joined_names(kinds@.take(i as int)));
    }
    assert(kinds@.take(kinds.len() as int) =~= kinds@);
    r
}

} // verus!
