//! The engine's own decisions that stand apart from running containers:
//! which tasks a prerequisite names, which task a misspelled name most
//! likely meant, how a list reads in a message, how an engine is
//! configured, and which proxy a container will not be able to reach.

use vstd::prelude::*;

use std::collections::BTreeSet;

use crate::interrupt::Interrupt;
use crate::proc_net::{loopback_only, loopback_only_ports_in, table_sockets};
use crate::proxy::{proxy_environment_variables, rewritten_ports_spec};
use crate::registry_auth::{insert_sorted, strictly_ascending, texts};
use crate::text::chars_of;
use crate::text_map::TextMap;

verus! {

// ---------------------------------------------------------------------
// Lists in messages
// ---------------------------------------------------------------------

/// `items` joined with `", "`.
pub open spec fn comma_list(items: Seq<Seq<char>>) -> Seq<char>
    decreases items.len(),
{
    if items.len() == 0 {
        Seq::empty()
    } else if items.len() == 1 {
        items[0]
    } else {
        comma_list(items.drop_last()) + ", "@ + items.last()
    }
}

/// `items` as a sentence lists them: `a`, `a or b`, `a, b or c`, with
/// `conjunction` before the last.
pub open spec fn readable_list(items: Seq<Seq<char>>, conjunction: Seq<char>) -> Seq<char> {
    if items.len() == 0 {
        Seq::empty()
    } else if items.len() == 1 {
        items[0]
    } else {
        comma_list(items.drop_last()) + " "@ + conjunction + " "@ + items.last()
    }
}

/// `items` as a sentence lists them, `conjunction` before the last.
pub fn human_readable_list(items: &[String], conjunction: &str) -> (text: String)
    ensures
        text@ == readable_list(items@.map_values(|s: String| s@), conjunction@),
{
    let ghost all = items@.map_values(|s: String| s@);
    let n = items.len();
    if n == 0 {
        return String::new();
    }
    if n == 1 {
        return items[0].clone();
    }
    let mut text = String::new();
    let mut i: usize = 0;
    while i < n - 1
        invariant
            n == items@.len(),
            n >= 2,
            i <= n - 1,
            all == items@.map_values(|s: String| s@),
            text@ == comma_list(all.take(i as int)),
        decreases n - 1 - i,
    {
        if i > 0 {
            text.append(", ");
        }
        text.append(items[i].as_str());
        proof {
            assert(all.take(i + 1).drop_last() =~= all.take(i as int));
            if i == 0 {
                assert(all.take(0) =~= Seq::<Seq<char>>::empty());
            }
        }
        i = i + 1;
    }
    text.append(" ");
    text.append(conjunction);
    text.append(" ");
    text.append(items[n - 1].as_str());
    assert(all.drop_last() =~= all.take(n - 1));
    text
}

// ---------------------------------------------------------------------
// Wildcards
// ---------------------------------------------------------------------

/// Whether `name` matches `pattern`, where `*` stands for any run of
/// characters and every other character only for itself.
pub open spec fn glob_matches(pattern: Seq<char>, name: Seq<char>) -> bool
    decreases pattern.len(), name.len(),
{
    if pattern.len() == 0 {
        name.len() == 0
    } else if pattern[0] == '*' {
        glob_matches(pattern.drop_first(), name) || (name.len() > 0 && glob_matches(pattern, name.drop_first()))
    } else {
        name.len() > 0 && name[0] == pattern[0] && glob_matches(pattern.drop_first(), name.drop_first())
    }
}

/// Whether `name[j..]` matches `pattern[i..]`.
fn glob_from(pattern: &Vec<char>, i: usize, name: &Vec<char>, j: usize) -> (matched: bool)
    requires
        i <= pattern.len(),
        j <= name.len(),
    ensures
        matched == glob_matches(pattern@.skip(i as int), name@.skip(j as int)),
    decreases pattern.len() - i, name.len() - j,
{
    let ghost p = pattern@.skip(i as int);
    let ghost s = name@.skip(j as int);
    if i == pattern.len() {
        return j == name.len();
    }
    assert(p[0] == pattern@[i as int]);
    assert(p.drop_first() =~= pattern@.skip(i + 1));
    if j < name.len() {
        assert(s[0] == name@[j as int]);
        assert(s.drop_first() =~= name@.skip(j + 1));
    }
    if pattern[i] == '*' {
        if glob_from(pattern, i + 1, name, j) {
            return true;
        }
        j < name.len() && glob_from(pattern, i, name, j + 1)
    } else {
        j < name.len() && name[j] == pattern[i] && glob_from(pattern, i + 1, name, j + 1)
    }
}

/// Whether `name` matches the wildcard `pattern`.
pub fn wildcard_matches(pattern: &str, name: &str) -> (matched: bool)
    ensures
        matched == glob_matches(pattern@, name@),
{
    let p = chars_of(pattern);
    let s = chars_of(name);
    assert(p@.skip(0) =~= p@);
    assert(s@.skip(0) =~= s@);
    glob_from(&p, 0, &s, 0)
}

/// Whether `text` holds a `*`.
fn has_wildcard(text: &str) -> (found: bool)
    ensures
        found == text@.contains('*'),
{
    let chars = chars_of(text);
    let mut i: usize = 0;
    while i < chars.len()
        invariant
            i <= chars.len(),
            chars@ == text@,
            forall|k: int| 0 <= k < i ==> chars@[k] != '*',
        decreases chars.len() - i,
    {
        if chars[i] == '*' {
            return true;
        }
        i = i + 1;
    }
    false
}

/// Why an engine could not be configured.
#[derive(Debug)]
pub enum EngineError {
    /// An image override names a container the configuration lacks.
    UnknownImageOverride { container: String },
}

/// The text of an engine error.
pub open spec fn engine_error_text(error: EngineError) -> Seq<char> {
    match error {
        EngineError::UnknownImageOverride { container } => "Cannot override image for container '"@ + container@
            + "' because there is no container named '"@ + container@ + "' defined."@,
    }
}

impl EngineError {
    /// The error as the reader sees it.
    pub fn message(&self) -> (text: String)
        ensures
            text@ == engine_error_text(*self),
    {
        match self {
            EngineError::UnknownImageOverride { container } => {
                let mut s = String::new();
                s.append("Cannot override image for container '");
                s.append(container.as_str());
                s.append("' because there is no container named '");
                s.append(container.as_str());
                s.append("' defined.");
                s
            },
        }
    }
}

// ---------------------------------------------------------------------
// The configuration the engine reads
// ---------------------------------------------------------------------

/// What a task runs: a command in one of the configuration's containers.
pub struct TaskRun {
    pub container: String,
    pub command: Option<String>,
}

/// A task, as far as the engine's decisions here read one.
pub struct Task {
    pub run: Option<TaskRun>,
    /// Tasks to run first: names, or patterns with `*`.
    pub prerequisites: Option<Vec<String>>,
    /// Containers to start alongside.
    pub dependencies: Option<Vec<String>>,
    pub description: Option<String>,
    pub group: Option<String>,
}

/// A container, as far as the engine's decisions here read one.
pub struct Container {
    pub image: Option<String>,
    pub build_directory: Option<String>,
}

/// A loaded configuration: its containers and tasks by name.
pub struct Config {
    pub project_name: String,
    pub containers: TextMap<Container>,
    pub tasks: TextMap<Task>,
    pub config_variables: Option<TextMap<Option<String>>>,
    pub forbid_telemetry: Option<bool>,
}

// ---------------------------------------------------------------------
// Task names
// ---------------------------------------------------------------------

/// Whether `names` is the tasks' names, each once, in ascending order.
pub open spec fn sorted_names_of(names: Seq<Seq<char>>, tasks: TextMap<Task>) -> bool {
    &&& strictly_ascending(names)
    &&& names.to_set() == tasks.key_seq().to_set()
}

/// The names of `tasks`, in ascending order.
pub fn sorted_task_names(tasks: &TextMap<Task>) -> (names: Vec<String>)
    ensures
        sorted_names_of(texts(names@), *tasks),
{
    let mut names: Vec<String> = Vec::new();
    let mut i: usize = 0;
    let n = tasks.len();
    assert(texts(names@).to_set() =~= Set::<Seq<char>>::empty());
    assert(tasks.key_seq().take(0).to_set() =~= Set::<Seq<char>>::empty());
    while i < n
        invariant
            n == tasks.pairs().len(),
            i <= n,
            strictly_ascending(texts(names@)),
            texts(names@).to_set() == tasks.key_seq().take(i as int).to_set(),
        decreases n - i,
    {
        let key = tasks.key_at(i);
        insert_sorted(&mut names, key);
        proof {
            assert(tasks.key_seq().take(i + 1) =~= tasks.key_seq().take(i as int).push(key@));
            tasks.key_seq().take(i as int).lemma_push_to_set_commute(key@);
        }
        i = i + 1;
    }
    assert(tasks.key_seq().take(n as int) =~= tasks.key_seq());
    names
}

/// `acc` followed by each of `more` it does not hold yet, in order.
pub open spec fn append_new(acc: Seq<Seq<char>>, more: Seq<Seq<char>>) -> Seq<Seq<char>>
    decreases more.len(),
{
    if more.len() == 0 {
        acc
    } else {
        let before = append_new(acc, more.drop_last());
        if before.contains(more.last()) {
            before
        } else {
            before.push(more.last())
        }
    }
}

/// The names in `names` that `pattern` matches, in order.
pub open spec fn matching(names: Seq<Seq<char>>, pattern: Seq<char>) -> Seq<Seq<char>>
    decreases names.len(),
{
    if names.len() == 0 {
        Seq::empty()
    } else if glob_matches(pattern, names.last()) {
        matching(names.drop_last(), pattern).push(names.last())
    } else {
        matching(names.drop_last(), pattern)
    }
}

/// What one prerequisite names: a pattern with `*` every task it matches,
/// in the order of `names`; anything else itself, whether or not a task has
/// that name (running it is what finds out).
pub open spec fn named_by(names: Seq<Seq<char>>, prerequisite: Seq<char>) -> Seq<Seq<char>> {
    if prerequisite.contains('*') {
        matching(names, prerequisite)
    } else {
        seq![prerequisite]
    }
}

/// The tasks a list of prerequisites names, each once, in the order they
/// are first named.
pub open spec fn expansion(names: Seq<Seq<char>>, prerequisites: Seq<Seq<char>>) -> Seq<Seq<char>>
    decreases prerequisites.len(),
{
    if prerequisites.len() == 0 {
        Seq::empty()
    } else {
        append_new(expansion(names, prerequisites.drop_last()), named_by(names, prerequisites.last()))
    }
}

/// Whether `items` holds `item`.
fn holds(items: &Vec<String>, item: &str) -> (found: bool)
    ensures
        found == texts(items@).contains(item@),
{
    let mut i: usize = 0;
    while i < items.len()
        invariant
            i <= items.len(),
            forall|k: int| 0 <= k < i ==> texts(items@)[k] != item@,
        decreases items.len() - i,
    {
        if crate::text::str_eq(items[i].as_str(), item) {
            assert(texts(items@)[i as int] == item@);
            return true;
        }
        i = i + 1;
    }
    false
}

/// Appends `item` to `out` unless it is there already.
fn push_new(out: &mut Vec<String>, item: &str)
    ensures
        texts(final(out)@) == if texts(old(out)@).contains(item@) {
            texts(old(out)@)
        } else {
            texts(old(out)@).push(item@)
        },
{
    if !holds(out, item) {
        out.push(item.to_string());
        assert(texts(final(out)@) =~= texts(old(out)@).push(item@));
    }
}

/// The tasks `prerequisites` name: a `*` stands for any run of characters
/// and every other character only for itself (so `build.*` matches
/// `build.env` but not `buildXenv`); a pattern names the tasks it matches
/// in alphabetical order, and matching none is no error; each task comes
/// once, where it is first named. It never fails.
pub fn expand_prerequisite_wildcards(tasks: &TextMap<Task>, prerequisites: &[String]) -> (expanded: Result<
    Vec<String>,
    EngineError,
>)
    ensures
        expanded matches Ok(list) && exists|names: Seq<Seq<char>>|
            #![trigger expansion(names, texts(prerequisites@))]
            sorted_names_of(names, *tasks) && texts(list@) == expansion(names, texts(prerequisites@)),
{
    let names = sorted_task_names(tasks);
    let ghost sorted = texts(names@);
    let ghost wanted = texts(prerequisites@);
    let mut out: Vec<String> = Vec::new();
    let mut i: usize = 0;
    while i < prerequisites.len()
        invariant
            i <= prerequisites.len(),
            sorted == texts(names@),
            wanted == texts(prerequisites@),
            texts(out@) == expansion(sorted, wanted.take(i as int)),
        decreases prerequisites.len() - i,
    {
        let prerequisite = prerequisites[i].as_str();
        let ghost start = texts(out@);
        assert(wanted.take(i + 1).drop_last() =~= wanted.take(i as int));
        assert(wanted.take(i + 1).last() == prerequisite@);
        if has_wildcard(prerequisite) {
            let mut k: usize = 0;
            while k < names.len()
                invariant
                    k <= names.len(),
                    sorted == texts(names@),
                    prerequisite@.contains('*'),
                    texts(out@) == append_new(start, matching(sorted.take(k as int), prerequisite@)),
                decreases names.len() - k,
            {
                let name = names[k].as_str();
                let ghost before = texts(out@);
                assert(sorted.take(k + 1).drop_last() =~= sorted.take(k as int));
                assert(sorted.take(k + 1).last() == name@);
                if wildcard_matches(prerequisite, name) {
                    push_new(&mut out, name);
                    assert(matching(sorted.take(k + 1), prerequisite@) =~= matching(
                        sorted.take(k as int),
                        prerequisite@,
                    ).push(name@));
                    assert(matching(sorted.take(k + 1), prerequisite@).drop_last() =~= matching(
                        sorted.take(k as int),
                        prerequisite@,
                    ));
                }
                k = k + 1;
            }
            assert(sorted.take(names.len() as int) =~= sorted);
            assert(named_by(sorted, prerequisite@) == matching(sorted, prerequisite@));
            assert(texts(out@) == append_new(start, named_by(sorted, prerequisite@)));
        } else {
            push_new(&mut out, prerequisite);
            assert(seq![prerequisite@].drop_last() =~= Seq::<Seq<char>>::empty());
            assert(named_by(sorted, prerequisite@) == seq![prerequisite@]);
            assert(append_new(start, Seq::<Seq<char>>::empty()) == start);
            assert(texts(out@) == append_new(start, named_by(sorted, prerequisite@)));
        }
        assert(expansion(sorted, wanted.take(i + 1)) == append_new(
            expansion(sorted, wanted.take(i as int)),
            named_by(sorted, prerequisite@),
        ));
        i = i + 1;
    }
    assert(wanted.take(prerequisites.len() as int) =~= wanted);
    Ok(out)
}

// ---------------------------------------------------------------------
// Suggesting a task for a misspelled name
// ---------------------------------------------------------------------

/// The farthest a task's name may be from what was asked for and still be
/// suggested.
pub const MAX_SUGGESTION_DISTANCE: usize = 3;

/// The least of three numbers.
pub open spec fn min3(x: nat, y: nat, z: nat) -> nat {
    if x <= y && x <= z {
        x
    } else if y <= z {
        y
    } else {
        z
    }
}

/// The Levenshtein distance between `a` and `b`: the fewest insertions,
/// deletions and substitutions of single characters that turn one into
/// the other.
pub open spec fn edit_distance(a: Seq<char>, b: Seq<char>) -> nat
    decreases a.len() + b.len(),
{
    if a.len() == 0 {
        b.len()
    } else if b.len() == 0 {
        a.len()
    } else {
        min3(
            edit_distance(a.drop_last(), b) + 1,
            edit_distance(a, b.drop_last()) + 1,
            edit_distance(a.drop_last(), b.drop_last()) + if a.last() == b.last() {
                0nat
            } else {
                1nat
            },
        )
    }
}

/// `d`, or one more than the suggestion cutoff where it is farther.
pub open spec fn capped(d: nat) -> nat {
    if d <= MAX_SUGGESTION_DISTANCE {
        d
    } else {
        (MAX_SUGGESTION_DISTANCE + 1) as nat
    }
}

/// The edit distance between `a` and `b`, capped one past the suggestion
/// cutoff: exact wherever it is within it.
fn capped_distance(a: &Vec<char>, b: &Vec<char>) -> (d: usize)
    ensures
        d == capped(edit_distance(a@, b@)),
{
    let cap: usize = MAX_SUGGESTION_DISTANCE + 1;
    let m = b.len();
    let mut previous: Vec<usize> = Vec::new();
    let mut j: usize = 0;
    assert(a@.take(0).len() == 0);
    while j < m
        invariant
            m == b@.len(),
            j <= m,
            previous@.len() == j,
            cap == MAX_SUGGESTION_DISTANCE + 1,
            forall|k: int| 0 <= k < j ==> previous@[k] == capped(edit_distance(a@.take(0), b@.take(k))),
        decreases m - j,
    {
        previous.push(if j < cap { j } else { cap });
        j = j + 1;
    }
    previous.push(if m < cap { m } else { cap });
    let mut i: usize = 0;
    while i < a.len()
        invariant
            m == b@.len(),
            i <= a@.len(),
            previous@.len() == m + 1,
            cap == MAX_SUGGESTION_DISTANCE + 1,
            forall|k: int| 0 <= k <= m ==> previous@[k] == capped(edit_distance(a@.take(i as int), b@.take(k))),
        decreases a@.len() - i,
    {
        let ghost row = a@.take(i + 1);
        assert(row.drop_last() =~= a@.take(i as int));
        assert(row.last() == a@[i as int]);
        assert(b@.take(0).len() == 0);
        let mut current: Vec<usize> = Vec::new();
        current.push(if i + 1 < cap { i + 1 } else { cap });
        let mut step: usize = 0;
        while step < m
            invariant
                m == b@.len(),
                i < a@.len(),
                step <= m,
                current@.len() == step + 1,
                previous@.len() == m + 1,
                cap == MAX_SUGGESTION_DISTANCE + 1,
                row == a@.take(i + 1),
                row.drop_last() == a@.take(i as int),
                row.last() == a@[i as int],
                forall|k: int| 0 <= k <= m ==> previous@[k] == capped(edit_distance(a@.take(i as int), b@.take(k))),
                forall|k: int| 0 <= k <= step ==> current@[k] == capped(edit_distance(row, b@.take(k))),
            decreases m - step,
        {
            let j = step + 1;
            let ghost column = b@.take(j as int);
            assert(column.drop_last() =~= b@.take(j - 1));
            assert(column.last() == b@[j - 1]);
            let cost: usize = if a[i] == b[j - 1] { 0 } else { 1 };
            let deletion = previous[j] + 1;
            let insertion = current[j - 1] + 1;
            let substitution = previous[j - 1] + cost;
            let mut best = deletion;
            if insertion < best {
                best = insertion;
            }
            if substitution < best {
                best = substitution;
            }
            if best > cap {
                best = cap;
            }
            current.push(best);
            step = step + 1;
        }
        previous = current;
        i = i + 1;
    }
    assert(a@.take(a@.len() as int) =~= a@);
    assert(b@.take(m as int) =~= b@);
    previous[m]
}

/// The names in `names` at (capped) distance `d` from `asked`, in order.
pub open spec fn at_distance(names: Seq<Seq<char>>, asked: Seq<char>, d: nat) -> Seq<Seq<char>>
    decreases names.len(),
{
    if names.len() == 0 {
        Seq::empty()
    } else if capped(edit_distance(names.last(), asked)) == d {
        at_distance(names.drop_last(), asked, d).push(names.last())
    } else {
        at_distance(names.drop_last(), asked, d)
    }
}

/// The suggestions for `asked` among `names`: every name within the
/// cutoff, nearest first, and alphabetically among equally near ones.
pub open spec fn suggestions(names: Seq<Seq<char>>, asked: Seq<char>) -> Seq<Seq<char>> {
    at_distance(names, asked, 0) + at_distance(names, asked, 1) + at_distance(names, asked, 2) + at_distance(
        names,
        asked,
        3,
    )
}

/// The task names close enough to `asked` to suggest — within an edit
/// distance of three, nearest first, alphabetically among equally near ones
/// — for a "did you mean" when no task has that name.
pub fn suggest_task_names(tasks: &TextMap<Task>, asked: &str) -> (suggested: Vec<String>)
    ensures
        exists|names: Seq<Seq<char>>|
            #![trigger suggestions(names, asked@)]
            sorted_names_of(names, *tasks) && texts(suggested@) == suggestions(names, asked@),
{
    let names = sorted_task_names(tasks);
    let ghost sorted = texts(names@);
    let target = chars_of(asked);
    let mut distances: Vec<usize> = Vec::new();
    let mut k: usize = 0;
    while k < names.len()
        invariant
            k <= names.len(),
            sorted == texts(names@),
            target@ == asked@,
            distances@.len() == k,
            forall|m: int| 0 <= m < k ==> distances@[m] == capped(edit_distance(sorted[m], asked@)),
        decreases names.len() - k,
    {
        let chars = chars_of(names[k].as_str());
        let d = capped_distance(&chars, &target);
        distances.push(d);
        k = k + 1;
    }
    let mut suggested: Vec<String> = Vec::new();
    let mut d: usize = 0;
    while d <= MAX_SUGGESTION_DISTANCE
        invariant
            d <= MAX_SUGGESTION_DISTANCE + 1,
            sorted == texts(names@),
            distances@.len() == names@.len(),
            forall|m: int| 0 <= m < names@.len() ==> distances@[m] == capped(edit_distance(sorted[m], asked@)),
            texts(suggested@) == (if d == 0 {
                Seq::empty()
            } else if d == 1 {
                at_distance(sorted, asked@, 0)
            } else if d == 2 {
                at_distance(sorted, asked@, 0) + at_distance(sorted, asked@, 1)
            } else if d == 3 {
                at_distance(sorted, asked@, 0) + at_distance(sorted, asked@, 1) + at_distance(sorted, asked@, 2)
            } else {
                suggestions(sorted, asked@)
            }),
        decreases MAX_SUGGESTION_DISTANCE + 1 - d,
    {
        let ghost start = texts(suggested@);
        let mut k: usize = 0;
        while k < names.len()
            invariant
                k <= names.len(),
                d <= MAX_SUGGESTION_DISTANCE,
                sorted == texts(names@),
                distances@.len() == names@.len(),
                forall|m: int| 0 <= m < names@.len() ==> distances@[m] == capped(edit_distance(sorted[m], asked@)),
                texts(suggested@) == start + at_distance(sorted.take(k as int), asked@, d as nat),
            decreases names.len() - k,
        {
            assert(sorted.take(k + 1).drop_last() =~= sorted.take(k as int));
            assert(sorted.take(k + 1).last() == sorted[k as int]);
            if distances[k] == d {
                let ghost before = suggested@;
                let name = names[k].as_str().to_string();
                assert(name@ == sorted[k as int]);
                suggested.push(name);
                assert(texts(suggested@) =~= texts(before).push(sorted[k as int]));
                assert(at_distance(sorted.take(k + 1), asked@, d as nat) == at_distance(
                    sorted.take(k as int),
                    asked@,
                    d as nat,
                ).push(sorted[k as int]));
                assert(texts(suggested@) =~= start + at_distance(sorted.take(k + 1), asked@, d as nat));
            } else {
                assert(at_distance(sorted.take(k + 1), asked@, d as nat) == at_distance(
                    sorted.take(k as int),
                    asked@,
                    d as nat,
                ));
            }
            k = k + 1;
        }
        assert(sorted.take(names.len() as int) =~= sorted);
        d = d + 1;
    }
    suggested
}

// ---------------------------------------------------------------------
// Configuring an engine
// ---------------------------------------------------------------------

/// Where a cache mount keeps its data.
#[derive(Clone, Copy, Debug, PartialEq, Eq, Structural)]
pub enum CacheType {
    /// A Docker volume.
    Volume,
    /// A directory under the project.
    Directory,
}

/// How cache mounts are made for a run.
pub struct CacheOptions {
    pub cache_type: CacheType,
    pub project_directory: String,
}

/// Every setting the command-line flags give an engine. The default is no
/// flags at all.
pub struct TaskEngineSettings {
    pub existing_network: Option<String>,
    pub publish_ports: bool,
    pub propagate_proxy_environment_variables: bool,
    pub run_prerequisites: bool,
    /// Images to run in place of those configured, by container name.
    pub image_overrides: TextMap<String>,
    /// Extra tags for the images built for containers, by container name.
    pub image_tags: TextMap<Vec<String>>,
    pub cleanup_after_success: bool,
    pub cleanup_after_failure: bool,
    pub max_parallelism: Option<usize>,
    pub cache: Option<(CacheType, String)>,
    pub ratect_version: Option<String>,
    pub interrupt: Option<Interrupt>,
}

/// Whether `settings` are those of no flags at all.
pub open spec fn no_flags(settings: TaskEngineSettings) -> bool {
    &&& settings.existing_network is None
    &&& settings.publish_ports
    &&& settings.propagate_proxy_environment_variables
    &&& settings.run_prerequisites
    &&& settings.image_overrides@ == Map::<Seq<char>, String>::empty()
    &&& settings.image_tags@ == Map::<Seq<char>, Vec<String>>::empty()
    &&& settings.cleanup_after_success
    &&& settings.cleanup_after_failure
    &&& settings.max_parallelism is None
    &&& settings.cache is None
    &&& settings.ratect_version is None
    &&& settings.interrupt is None
}

impl Default for TaskEngineSettings {
    fn default() -> (settings: Self)
        ensures
            no_flags(settings),
    {
        TaskEngineSettings {
            existing_network: None,
            publish_ports: true,
            propagate_proxy_environment_variables: true,
            run_prerequisites: true,
            image_overrides: TextMap::new(),
            image_tags: TextMap::new(),
            cleanup_after_success: true,
            cleanup_after_failure: true,
            max_parallelism: None,
            cache: None,
            ratect_version: None,
            interrupt: None,
        }
    }
}

/// An engine: a configuration and how to run it.
pub struct TaskEngine {
    pub config: Config,
    pub existing_network: Option<String>,
    pub publish_ports: bool,
    pub propagate_proxy_environment_variables: bool,
    pub skip_prerequisites: bool,
    pub image_overrides: TextMap<String>,
    pub image_tags: TextMap<Vec<String>>,
    pub cleanup_after_success: bool,
    pub cleanup_after_failure: bool,
    pub max_parallelism: Option<usize>,
    pub cache_options: Option<CacheOptions>,
    pub ratect_version: Option<String>,
    pub interrupt: Option<Interrupt>,
    /// The host's environment, where proxy variables are looked up.
    pub host_env: TextMap<String>,
    /// The host's `/proc/net/tcp` and `/proc/net/tcp6` tables, where it
    /// has them.
    pub proc_net_tcp: Vec<String>,
}

/// The first key of `overrides` naming no container of `containers`, if
/// any.
pub open spec fn first_unknown(overrides: Seq<Seq<char>>, containers: Map<Seq<char>, Container>) -> Option<int>
    decreases overrides.len(),
{
    if overrides.len() == 0 {
        None
    } else {
        match first_unknown(overrides.drop_last(), containers) {
            Some(i) => Some(i),
            None => if containers.contains_key(overrides.last()) {
                None
            } else {
                Some(overrides.len() - 1)
            },
        }
    }
}

/// A first unknown key is an unknown key, and none before it is.
proof fn lemma_first_unknown(overrides: Seq<Seq<char>>, containers: Map<Seq<char>, Container>)
    ensures
        match first_unknown(overrides, containers) {
            Some(i) => 0 <= i < overrides.len() && !containers.contains_key(overrides[i]) && forall|k: int|
                0 <= k < i ==> containers.contains_key(#[trigger] overrides[k]),
            None => forall|k: int| 0 <= k < overrides.len() ==> containers.contains_key(#[trigger] overrides[k]),
        },
    decreases overrides.len(),
{
    if overrides.len() > 0 {
        let shorter = overrides.drop_last();
        lemma_first_unknown(shorter, containers);
        match first_unknown(shorter, containers) {
            Some(i) => {
                assert(shorter[i] == overrides[i]);
                assert forall|k: int| 0 <= k < i implies containers.contains_key(#[trigger] overrides[k]) by {
                    assert(shorter[k] == overrides[k]);
                }
            },
            None => {
                assert forall|k: int| 0 <= k < shorter.len() implies containers.contains_key(
                    #[trigger] overrides[k],
                ) by {
                    assert(shorter[k] == overrides[k]);
                }
            },
        }
    }
}

impl TaskEngine {
    /// An engine for `config` in the state of no flags given: ports
    /// published, proxy variables propagated, prerequisites run, cleanup
    /// after success and failure, no overrides, no limit, no cache options.
    /// The host's environment and `/proc` tables start empty: the
    /// application hands them in.
    pub fn new(config: Config) -> (engine: Self)
        ensures
            engine.config == config,
            engine.existing_network is None,
            engine.publish_ports,
            engine.propagate_proxy_environment_variables,
            !engine.skip_prerequisites,
            engine.image_overrides@ == Map::<Seq<char>, String>::empty(),
            engine.image_tags@ == Map::<Seq<char>, Vec<String>>::empty(),
            engine.cleanup_after_success,
            engine.cleanup_after_failure,
            engine.max_parallelism is None,
            engine.cache_options is None,
            engine.ratect_version is None,
            engine.interrupt is None,
            engine.host_env@ == Map::<Seq<char>, String>::empty(),
            engine.proc_net_tcp@.len() == 0,
    {
        TaskEngine {
            config,
            existing_network: None,
            publish_ports: true,
            propagate_proxy_environment_variables: true,
            skip_prerequisites: false,
            image_overrides: TextMap::new(),
            image_tags: TextMap::new(),
            cleanup_after_success: true,
            cleanup_after_failure: true,
            max_parallelism: None,
            cache_options: None,
            ratect_version: None,
            interrupt: None,
            host_env: TextMap::new(),
            proc_net_tcp: Vec::new(),
        }
    }

    /// Runs the images `overrides` names in place of those configured, by
    /// container name. Refuses the first override, in order, naming a
    /// container the configuration lacks.
    pub fn with_image_overrides(self, overrides: TextMap<String>) -> (engine: Result<Self, EngineError>)
        ensures
            match first_unknown(overrides.key_seq(), self.config.containers@) {
                None => engine matches Ok(e) && e == (TaskEngine { image_overrides: overrides, ..self }),
                Some(i) => engine matches Err(EngineError::UnknownImageOverride { container }) && container@
                    == overrides.key_seq()[i],
            },
    {
        let n = overrides.len();
        let mut i: usize = 0;
        while i < n
            invariant
                n == overrides.pairs().len(),
                i <= n,
                first_unknown(overrides.key_seq().take(i as int), self.config.containers@) is None,
            decreases n - i,
        {
            let key = overrides.key_at(i);
            let ghost keys = overrides.key_seq();
            assert(keys.take(i + 1).drop_last() =~= keys.take(i as int));
            assert(keys.take(i + 1).last() == key@);
            if !self.config.containers.contains_key(key.as_str()) {
                proof {
                    lemma_first_unknown(keys.take(i + 1), self.config.containers@);
                    lemma_first_unknown(keys, self.config.containers@);
                    let f = first_unknown(keys, self.config.containers@);
                    lemma_first_unknown(keys.take(i as int), self.config.containers@);
                    assert(keys.take(i + 1)[i as int] == keys[i as int]);
                    assert(forall|k: int| 0 <= k < i ==> keys.take(i as int)[k] == keys[k]);
                    assert(f == Some(i as int));
                }
                return Err(EngineError::UnknownImageOverride { container: key.as_str().to_string() });
            }
            i = i + 1;
        }
        assert(overrides.key_seq().take(n as int) =~= overrides.key_seq());
        Ok(TaskEngine { image_overrides: overrides, ..self })
    }

    /// Applies every setting the flags give: each field as the equivalent
    /// builder sets it, with the image overrides checked as
    /// [`TaskEngine::with_image_overrides`] checks them.
    pub fn with_settings(self, settings: TaskEngineSettings) -> (engine: Result<Self, EngineError>)
        ensures
            match first_unknown(settings.image_overrides.key_seq(), self.config.containers@) {
                None => engine matches Ok(e) && e == (TaskEngine {
                    existing_network: settings.existing_network,
                    publish_ports: settings.publish_ports,
                    propagate_proxy_environment_variables: settings.propagate_proxy_environment_variables,
                    skip_prerequisites: !settings.run_prerequisites,
                    image_overrides: settings.image_overrides,
                    image_tags: settings.image_tags,
                    cleanup_after_success: settings.cleanup_after_success,
                    cleanup_after_failure: settings.cleanup_after_failure,
                    max_parallelism: settings.max_parallelism,
                    cache_options: match settings.cache {
                        Some((cache_type, project_directory)) => Some(CacheOptions { cache_type, project_directory }),
                        None => None,
                    },
                    ratect_version: settings.ratect_version,
                    interrupt: settings.interrupt,
                    ..self
                }),
                Some(i) => engine matches Err(EngineError::UnknownImageOverride { container }) && container@
                    == settings.image_overrides.key_seq()[i],
            },
    {
        let TaskEngineSettings {
            existing_network,
            publish_ports,
            propagate_proxy_environment_variables,
            run_prerequisites,
            image_overrides,
            image_tags,
            cleanup_after_success,
            cleanup_after_failure,
            max_parallelism,
            cache,
            ratect_version,
            interrupt,
        } = settings;
        let cache_options = match cache {
            Some((cache_type, project_directory)) => Some(CacheOptions { cache_type, project_directory }),
            None => None,
        };
        let engine = TaskEngine {
            existing_network,
            publish_ports,
            propagate_proxy_environment_variables,
            skip_prerequisites: !run_prerequisites,
            image_tags,
            cleanup_after_success,
            cleanup_after_failure,
            max_parallelism,
            cache_options,
            ratect_version,
            interrupt,
            ..self
        };
        engine.with_image_overrides(image_overrides)
    }

    /// Looks proxy variables up in `host_env` rather than nowhere.
    pub fn with_host_env(self, host_env: TextMap<String>) -> (engine: Self)
        ensures
            engine == (TaskEngine { host_env, ..self }),
    {
        TaskEngine { host_env, ..self }
    }

    /// Reads listening sockets from `tables`, the host's `/proc/net/tcp`
    /// and `/proc/net/tcp6`.
    pub fn with_proc_net_tcp(self, tables: Vec<String>) -> (engine: Self)
        ensures
            engine == (TaskEngine { proc_net_tcp: tables, ..self }),
    {
        TaskEngine { proc_net_tcp: tables, ..self }
    }

    /// Propagates no proxy variables (`--no-proxy-vars`).
    pub fn without_proxy_environment_variables(self) -> (engine: Self)
        ensures
            engine == (TaskEngine { propagate_proxy_environment_variables: false, ..self }),
    {
        TaskEngine { propagate_proxy_environment_variables: false, ..self }
    }

    /// The ports of rewritten proxy URLs that nothing outside the host's
    /// loopback listens on, so a container cannot reach the proxy however
    /// its URL names the host. Only rewritten URLs count (a proxy naming a
    /// routable host is not this host's loopback service); nothing counts
    /// when proxy variables are not propagated; and with no tables to read
    /// nothing is concluded.
    pub fn unreachable_proxy_ports(&self) -> (ports: BTreeSet<u16>)
        ensures
            !self.propagate_proxy_environment_variables ==> ports@ == Set::<u16>::empty(),
            self.propagate_proxy_environment_variables ==> forall|p: u16|
                #[trigger] ports@.contains(p) <==> rewritten_ports_spec(self.host_env.text()).contains(p)
                    && loopback_only(table_sockets(self.proc_net_tcp@), p),
    {
        if !self.propagate_proxy_environment_variables {
            return BTreeSet::new();
        }
        let proxy = proxy_environment_variables(&self.host_env, &BTreeSet::new());
        loopback_only_ports_in(&self.proc_net_tcp, &proxy.rewritten_ports)
    }
}

} // verus!
