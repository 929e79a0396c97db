//! What previous runs left behind, and how it is removed: the selection
//! and ordering behind `ratect resources list` and `ratect resources clean`,
//! found by the ownership labels in [`crate::labels`].
//!
//! A task running right now carries exactly the same labels as a leftover,
//! which is what `older_than` exists for. Selection takes `now` rather than
//! reading the clock, and nothing without the project label is ever a
//! candidate, however the daemon filtered.

use vstd::prelude::*;

use crate::labels::{CONTAINER, PROJECT, RUN, TASK};
use crate::text::joined_text;
use crate::text_map::TextMap;

verus! {

broadcast use vstd::std_specs::vec::axiom_spec_into_iter;

/// A container or network as the daemon lists it, with its labels.
/// Only a container has a `state`; a network has none.
pub struct LabelledResource {
    pub id: String,
    pub name: String,
    pub labels: TextMap<String>,
    /// Seconds since the Unix epoch, where the daemon reports it.
    pub created: Option<i64>,
    pub state: Option<String>,
}

/// One leftover, with the labels already pulled out of the map.
pub struct Leftover {
    pub resource: LabelledResource,
    pub task: String,
    pub run: String,
    pub age_seconds: i64,
    pub is_network: bool,
}

/// The value of label `key`, or `unknown` where the resource lacks it.
pub open spec fn label_or_unknown(labels: Map<Seq<char>, Seq<char>>, key: Seq<char>) -> Seq<char> {
    if labels.contains_key(key) {
        labels[key]
    } else {
        "unknown"@
    }
}

/// How old a resource created at `created` is at `now`; one whose creation
/// time is unknown counts as brand new.
pub open spec fn age_at(created: Option<i64>, now: i64) -> int {
    match created {
        Some(c) => now - c,
        None => 0,
    }
}

/// Whether the age of `resource` at `now` fits in the `i64` it is kept in.
pub open spec fn age_fits(resource: LabelledResource, now: i64) -> bool {
    i64::MIN <= age_at(resource.created, now) <= i64::MAX
}

/// Whether `leftover` is what `resource` reads as at `now`.
pub open spec fn reads_as(leftover: Leftover, resource: LabelledResource, now: i64) -> bool {
    &&& leftover.resource == resource
    &&& leftover.task@ == label_or_unknown(resource.labels.text(), TASK@)
    &&& leftover.run@ == label_or_unknown(resource.labels.text(), RUN@)
    &&& leftover.age_seconds == age_at(resource.created, now)
    &&& leftover.is_network == (resource.state is None)
}

/// The description of a leftover: a network by its name, a container by the
/// name the configuration gives it (Docker's own where it lacks the label)
/// and, where known, its state in brackets.
pub open spec fn description(leftover: Leftover) -> Seq<char> {
    let r = leftover.resource;
    if leftover.is_network {
        "network "@ + r.name@
    } else {
        let container = if r.labels.text().contains_key(CONTAINER@) {
            r.labels.text()[CONTAINER@]
        } else {
            r.name@
        };
        match r.state {
            Some(state) => "container "@ + container + " ("@ + state@ + ")"@,
            None => "container "@ + container,
        }
    }
}

/// The value of label `key`, or `unknown`.
fn label(labels: &TextMap<String>, key: &str) -> (value: String)
    ensures
        value@ == label_or_unknown(labels.text(), key@),
{
    match labels.get(key) {
        Some(v) => v.clone(),
        None => "unknown".to_owned(),
    }
}

impl Leftover {
    /// The leftover `resource` reads as at `now`, seconds since the Unix
    /// epoch: passed in rather than read here, so that age is a function of
    /// the inputs.
    pub fn new(resource: LabelledResource, now: i64) -> (leftover: Self)
        requires
            age_fits(resource, now),
        ensures
            reads_as(leftover, resource, now),
    {
        let task = label(&resource.labels, TASK);
        let run = label(&resource.labels, RUN);
        let age_seconds = match resource.created {
            Some(created) => now - created,
            None => 0,
        };
        let is_network = resource.state.is_none();
        Leftover { resource, task, run, age_seconds, is_network }
    }

    /// What this is, in the terms the configuration uses: a container's own
    /// Docker name is random words, which is no use for recognizing it.
    pub fn describe(&self) -> (text: String)
        ensures
            text@ == description(*self),
    {
        if self.is_network {
            return joined_text("network ", self.resource.name.as_str());
        }
        let container = match self.resource.labels.get(CONTAINER) {
            Some(c) => c.clone(),
            None => self.resource.name.clone(),
        };
        let named = joined_text("container ", container.as_str());
        match &self.resource.state {
            Some(state) => {
                let opened = joined_text(named.as_str(), " (");
                let with_state = joined_text(opened.as_str(), state.as_str());
                joined_text(with_state.as_str(), ")")
            },
            None => named,
        }
    }
}

/// The label filter a listing asks the daemon for: the project label with
/// `project`'s value, or, for every project, the label merely existing.
pub fn project_filter(project: Option<&str>) -> (filter: (String, Option<String>))
    ensures
        filter.0@ == PROJECT@,
        filter.1 is Some <==> project is Some,
        filter.1 matches Some(v) ==> v@ == project.unwrap()@,
{
    let value = match project {
        Some(p) => Some(p.to_owned()),
        None => None,
    };
    (PROJECT.to_owned(), value)
}

/// Whether `resource` carries the project label at all.
pub open spec fn has_project_label(resource: LabelledResource) -> bool {
    resource.labels@.contains_key(PROJECT@)
}

/// Whether a resource of this age is old enough for `older_than` seconds:
/// with no age asked for, everything is.
pub open spec fn old_enough(age: int, older_than: Option<u64>) -> bool {
    match older_than {
        Some(limit) => age >= limit as i64,
        None => true,
    }
}

/// Whether `resource` is a leftover to report at `now`.
pub open spec fn is_candidate(resource: LabelledResource, older_than: Option<u64>, now: i64) -> bool {
    has_project_label(resource) && old_enough(age_at(resource.created, now), older_than)
}

/// The positions, among the first `n` of `found`, of the leftovers to
/// report, in listing order.
pub open spec fn candidates(found: Seq<LabelledResource>, older_than: Option<u64>, now: i64, n: nat) -> Seq<int>
    decreases n,
{
    if n == 0 {
        Seq::empty()
    } else {
        let before = candidates(found, older_than, now, (n - 1) as nat);
        if is_candidate(found[n - 1], older_than, now) {
            before.push(n - 1)
        } else {
            before
        }
    }
}

/// Each position `candidates` picks is in range, picks a candidate, and
/// comes after the one before it.
pub proof fn lemma_candidates(found: Seq<LabelledResource>, older_than: Option<u64>, now: i64, n: nat)
    requires
        n <= found.len(),
    ensures
        forall|i: int|
            0 <= i < candidates(found, older_than, now, n).len() ==> {
                let k = #[trigger] candidates(found, older_than, now, n)[i];
                0 <= k < n && is_candidate(found[k], older_than, now)
            },
        forall|i: int, j: int|
            0 <= i < j < candidates(found, older_than, now, n).len() ==> #[trigger] candidates(
                found,
                older_than,
                now,
                n,
            )[i] < #[trigger] candidates(found, older_than, now, n)[j],
    decreases n,
{
    if n > 0 {
        let m = (n - 1) as nat;
        lemma_candidates(found, older_than, now, m);
        let before = candidates(found, older_than, now, m);
        let after = candidates(found, older_than, now, n);
        assert forall|i: int| 0 <= i < after.len() implies {
            let k = #[trigger] after[i];
            0 <= k < n && is_candidate(found[k], older_than, now)
        } by {
            if i < before.len() {
                assert(after[i] == before[i]);
            }
        }
        assert forall|i: int, j: int| 0 <= i < j < after.len() implies #[trigger] after[i] < #[trigger] after[j] by {
            assert(after[i] == before[i]);
            if j < before.len() {
                assert(after[j] == before[j]);
            }
        }
    }
}

/// Every labelled resource of `found` (what the daemon listed, containers
/// then networks) that is old enough for `older_than` seconds at `now`, in
/// listing order. The project label is checked again here whatever the
/// daemon was asked for: everything returned is a removal candidate.
pub fn select_leftovers(found: Vec<LabelledResource>, older_than: Option<u64>, now: i64) -> (leftovers: Vec<
    Leftover,
>)
    requires
        forall|i: int| 0 <= i < found.len() && has_project_label(#[trigger] found@[i]) ==> age_fits(found@[i], now),
    ensures
        leftovers.len() == candidates(found@, older_than, now, found.len() as nat).len(),
        forall|i: int|
            0 <= i < leftovers.len() ==> reads_as(
                #[trigger] leftovers@[i],
                found@[candidates(found@, older_than, now, found.len() as nat)[i]],
                now,
            ),
        forall|i: int|
            0 <= i < leftovers.len() ==> has_project_label(#[trigger] leftovers@[i].resource) && old_enough(
                leftovers@[i].age_seconds as int,
                older_than,
            ),
{
    let ghost all = found@;
    let mut leftovers: Vec<Leftover> = Vec::new();
    for resource in it: found.into_iter()
        invariant
            it.seq() == all,
            forall|i: int| 0 <= i < all.len() && has_project_label(#[trigger] all[i]) ==> age_fits(all[i], now),
            leftovers.len() == candidates(all, older_than, now, it.index() as nat).len(),
            forall|i: int|
                0 <= i < leftovers.len() ==> reads_as(
                    #[trigger] leftovers@[i],
                    all[candidates(all, older_than, now, it.index() as nat)[i]],
                    now,
                ),
    {
        let ghost k = it.index();
        assert(resource == all[k]);
        if resource.labels.contains_key(PROJECT) {
            let leftover = Leftover::new(resource, now);
            let keep = match older_than {
                Some(limit) => leftover.age_seconds >= limit as i64,
                None => true,
            };
            if keep {
                leftovers.push(leftover);
            }
        }
    }
    proof {
        lemma_candidates(all, older_than, now, all.len());
    }
    leftovers
}

/// The positions of the leftovers among the first `n` whose `is_network` is
/// `networks`, in order.
pub open spec fn positions_where(leftovers: Seq<Leftover>, networks: bool, n: nat) -> Seq<int>
    decreases n,
{
    if n == 0 {
        Seq::empty()
    } else {
        let before = positions_where(leftovers, networks, (n - 1) as nat);
        if leftovers[n - 1].is_network == networks {
            before.push(n - 1)
        } else {
            before
        }
    }
}

/// Each position `positions_where` picks is in range and of the kind asked
/// for, comes after the one before it, and none of that kind is missed.
pub proof fn lemma_positions_where(leftovers: Seq<Leftover>, networks: bool, n: nat)
    requires
        n <= leftovers.len(),
    ensures
        forall|i: int|
            0 <= i < positions_where(leftovers, networks, n).len() ==> {
                let k = #[trigger] positions_where(leftovers, networks, n)[i];
                0 <= k < n && leftovers[k].is_network == networks
            },
        forall|i: int, j: int|
            0 <= i < j < positions_where(leftovers, networks, n).len() ==> #[trigger] positions_where(
                leftovers,
                networks,
                n,
            )[i] < #[trigger] positions_where(leftovers, networks, n)[j],
        forall|k: int|
            0 <= k < n && #[trigger] leftovers[k].is_network == networks ==> positions_where(
                leftovers,
                networks,
                n,
            ).contains(k),
    decreases n,
{
    if n > 0 {
        let m = (n - 1) as nat;
        lemma_positions_where(leftovers, networks, m);
        let before = positions_where(leftovers, networks, m);
        assert forall|k: int| 0 <= k < n && #[trigger] leftovers[k].is_network == networks implies positions_where(
            leftovers,
            networks,
            n,
        ).contains(k) by {
            if k < m {
                let i = choose|i: int| 0 <= i < before.len() && before[i] == k;
                assert(positions_where(leftovers, networks, n)[i] == k);
            } else {
                assert(positions_where(leftovers, networks, n)[before.len() as int] == k);
            }
        }
    }
}

/// The order in which `leftovers` are removed: every container first, then
/// every network, each kind in the order given. A network still holding an
/// endpoint cannot be removed, so the reverse order fails on every task
/// that had one; the order is decided here so a caller cannot get it wrong.
pub fn removal_order(leftovers: &[Leftover]) -> (order: Vec<usize>)
    ensures
        order@.map_values(|i: usize| i as int) == positions_where(leftovers@, false, leftovers@.len())
            + positions_where(leftovers@, true, leftovers@.len()),
        forall|a: int| 0 <= a < order.len() ==> #[trigger] order@[a] < leftovers.len(),
        forall|a: int, b: int| 0 <= a < b < order.len() ==> #[trigger] order@[a] != #[trigger] order@[b],
        forall|k: int| 0 <= k < leftovers.len() ==> #[trigger] order@.contains(k as usize),
        forall|a: int, b: int|
            0 <= a < b < order.len() && #[trigger] leftovers@[order@[a] as int].is_network ==> #[trigger] leftovers@[order@[b] as int].is_network,
{
    let mut containers: Vec<usize> = Vec::new();
    let mut networks: Vec<usize> = Vec::new();
    let mut i: usize = 0;
    while i < leftovers.len()
        invariant
            i <= leftovers.len(),
            containers@.map_values(|i: usize| i as int) == positions_where(leftovers@, false, i as nat),
            networks@.map_values(|i: usize| i as int) == positions_where(leftovers@, true, i as nat),
        decreases leftovers.len() - i,
    {
        if leftovers[i].is_network {
            networks.push(i);
        } else {
            containers.push(i);
        }
        assert(containers@.map_values(|i: usize| i as int) =~= positions_where(leftovers@, false, (i + 1) as nat));
        assert(networks@.map_values(|i: usize| i as int) =~= positions_where(leftovers@, true, (i + 1) as nat));
        i = i + 1;
    }
    let ghost c = containers@.map_values(|i: usize| i as int);
    let ghost n = networks@.map_values(|i: usize| i as int);
    let mut order = containers;
    let mut j: usize = 0;
    while j < networks.len()
        invariant
            j <= networks.len(),
            order@.map_values(|i: usize| i as int) == c + n.take(j as int),
            n == networks@.map_values(|i: usize| i as int),
        decreases networks.len() - j,
    {
        let ghost before = order@;
        order.push(networks[j]);
        assert(n.take(j + 1) =~= n.take(j as int).push(n[j as int]));
        assert(order@.map_values(|i: usize| i as int) =~= before.map_values(|i: usize| i as int).push(
            networks@[j as int] as int,
        ));
        assert(order@.map_values(|i: usize| i as int) =~= c + n.take(j + 1));
        j = j + 1;
    }
    assert(n.take(j as int) =~= n);
    proof {
        let len = leftovers@.len();
        lemma_positions_where(leftovers@, false, len);
        lemma_positions_where(leftovers@, true, len);
        let pc = positions_where(leftovers@, false, len);
        let pn = positions_where(leftovers@, true, len);
        let o = order@.map_values(|i: usize| i as int);
        assert(o == pc + pn);
        assert forall|a: int| 0 <= a < order.len() implies #[trigger] order@[a] < leftovers.len() by {
            assert(o[a] == order@[a] as int);
            if a < pc.len() {
                assert(o[a] == pc[a]);
            } else {
                assert(o[a] == pn[a - pc.len()]);
            }
        }
        assert forall|a: int, b: int| 0 <= a < b < order.len() implies #[trigger] order@[a] != #[trigger] order@[b] by {
            assert(o[a] == order@[a] as int);
            assert(o[b] == order@[b] as int);
            if b < pc.len() {
                assert(o[a] == pc[a] && o[b] == pc[b]);
            } else if a >= pc.len() {
                assert(o[a] == pn[a - pc.len()] && o[b] == pn[b - pc.len()]);
            } else {
                assert(o[a] == pc[a] && o[b] == pn[b - pc.len()]);
            }
        }
        assert forall|a: int, b: int|
            0 <= a < b < order.len() && #[trigger] leftovers@[order@[a] as int].is_network implies #[trigger] leftovers@[order@[b] as int].is_network by {
            assert(o[a] == order@[a] as int);
            assert(o[b] == order@[b] as int);
            if a < pc.len() {
                assert(o[a] == pc[a]);
            } else {
                assert(o[b] == pn[b - pc.len()]);
            }
        }
        assert forall|k: int| 0 <= k < leftovers.len() implies #[trigger] order@.contains(k as usize) by {
            if leftovers@[k].is_network {
                assert(pn.contains(k));
                let i = choose|i: int| 0 <= i < pn.len() && pn[i] == k;
                assert(o[pc.len() + i] == k);
                assert(order@[pc.len() + i] == k as usize);
            } else {
                assert(pc.contains(k));
                let i = choose|i: int| 0 <= i < pc.len() && pc[i] == k;
                assert(o[i] == k);
                assert(order@[i] == k as usize);
            }
        }
    }
    order
}

/// How many of the attempted removals went through.
pub fn removed_count(outcomes: &[bool]) -> (count: usize)
    ensures
        count == outcomes@.filter(|ok: bool| ok).len(),
{
    let mut count: usize = 0;
    let mut i: usize = 0;
    while i < outcomes.len()
        invariant
            i <= outcomes.len(),
            count == outcomes@.take(i as int).filter(|ok: bool| ok).len(),
            count <= i,
        decreases outcomes.len() - i,
    {
        proof {
            reveal(Seq::filter);
            assert(outcomes@.take(i + 1).drop_last() =~= outcomes@.take(i as int));
        }
        if outcomes[i] {
            count = count + 1;
        }
        i = i + 1;
    }
    assert(outcomes@.take(i as int) =~= outcomes@);
    count
}

} // verus!
