//! The Docker labels stamped on everything a run creates, so that what a
//! previous run left over can be found again afterwards.
//!
//! Runtime ownership metadata in the shape Docker Compose's own
//! `com.docker.compose.*` labels have, all under one namespace.

use vstd::prelude::*;

use crate::text_map::TextMap;

verus! {

/// The prefix every key below shares.
pub const NAMESPACE: &'static str = "eu.orican.ratect";

/// The project the resource belongs to.
pub const PROJECT: &'static str = "eu.orican.ratect.project";
/// The task that created it.
pub const TASK: &'static str = "eu.orican.ratect.task";
/// The single task execution that created it.
pub const RUN: &'static str = "eu.orican.ratect.run";
/// Which container in the configuration this is, as opposed to Docker's own
/// randomly generated container name.
pub const CONTAINER: &'static str = "eu.orican.ratect.container";
/// [`ContainerRole`] — the task's own container, or one of its dependencies.
pub const ROLE: &'static str = "eu.orican.ratect.role";
/// The version of the binary that created it.
pub const VERSION: &'static str = "eu.orican.ratect.version";

/// Every label key set here, for a caller that needs to strip or recognize
/// them wholesale.
pub fn all() -> (keys: [&'static str; 6])
    ensures
        keys@.map_values(|k: &str| k@) == seq![PROJECT@, TASK@, RUN@, CONTAINER@, ROLE@, VERSION@],
{
    let keys = [PROJECT, TASK, RUN, CONTAINER, ROLE, VERSION];
    assert(keys@.map_values(|k: &str| k@) =~= seq![PROJECT@, TASK@, RUN@, CONTAINER@, ROLE@, VERSION@]);
    keys
}

/// Each key is the namespace, a dot, and a name of its own — so the keys are
/// all distinct and all recognizable by the namespace prefix.
pub proof fn lemma_keys_are_namespaced_and_distinct()
    ensures
        PROJECT@ == NAMESPACE@ + ".project"@,
        TASK@ == NAMESPACE@ + ".task"@,
        RUN@ == NAMESPACE@ + ".run"@,
        CONTAINER@ == NAMESPACE@ + ".container"@,
        ROLE@ == NAMESPACE@ + ".role"@,
        VERSION@ == NAMESPACE@ + ".version"@,
        PROJECT@ != TASK@ && PROJECT@ != RUN@ && PROJECT@ != CONTAINER@ && PROJECT@ != ROLE@
            && PROJECT@ != VERSION@,
        TASK@ != RUN@ && TASK@ != CONTAINER@ && TASK@ != ROLE@ && TASK@ != VERSION@,
        RUN@ != CONTAINER@ && RUN@ != ROLE@ && RUN@ != VERSION@,
        CONTAINER@ != ROLE@ && CONTAINER@ != VERSION@,
        ROLE@ != VERSION@,
{
    reveal_strlit("eu.orican.ratect");
    reveal_strlit("eu.orican.ratect.project");
    reveal_strlit("eu.orican.ratect.task");
    reveal_strlit("eu.orican.ratect.run");
    reveal_strlit("eu.orican.ratect.container");
    reveal_strlit("eu.orican.ratect.role");
    reveal_strlit("eu.orican.ratect.version");
    reveal_strlit(".project");
    reveal_strlit(".task");
    reveal_strlit(".run");
    reveal_strlit(".container");
    reveal_strlit(".role");
    reveal_strlit(".version");
    assert(PROJECT@ =~= NAMESPACE@ + ".project"@);
    assert(TASK@ =~= NAMESPACE@ + ".task"@);
    assert(RUN@ =~= NAMESPACE@ + ".run"@);
    assert(CONTAINER@ =~= NAMESPACE@ + ".container"@);
    assert(ROLE@ =~= NAMESPACE@ + ".role"@);
    assert(VERSION@ =~= NAMESPACE@ + ".version"@);
    assert(PROJECT@[17] != TASK@[17]);
    assert(PROJECT@[17] != RUN@[17]);
    assert(PROJECT@[17] != CONTAINER@[17]);
    assert(PROJECT@[17] != ROLE@[17]);
    assert(PROJECT@[17] != VERSION@[17]);
    assert(TASK@[17] != RUN@[17]);
    assert(TASK@[17] != CONTAINER@[17]);
    assert(TASK@[17] != ROLE@[17]);
    assert(TASK@[17] != VERSION@[17]);
    assert(RUN@[17] != CONTAINER@[17]);
    assert(RUN@[18] != ROLE@[18]);
    assert(RUN@[17] != VERSION@[17]);
    assert(CONTAINER@[17] != ROLE@[17]);
    assert(CONTAINER@[17] != VERSION@[17]);
    assert(ROLE@[17] != VERSION@[17]);
}

/// What a labelled container was to the task that created it.
#[derive(Debug, Clone, Copy, PartialEq, Eq, Structural)]
pub enum ContainerRole {
    /// The container the task itself runs in.
    Task,
    /// A dependency or sidecar started alongside it.
    Dependency,
}

/// The label value each role is written as.
pub open spec fn role_text(role: ContainerRole) -> Seq<char> {
    match role {
        ContainerRole::Task => "task"@,
        ContainerRole::Dependency => "dependency"@,
    }
}

impl ContainerRole {
    /// The label value this role is written as.
    pub fn as_str(self) -> (text: &'static str)
        ensures
            text@ == role_text(self),
    {
        match self {
            ContainerRole::Task => "task",
            ContainerRole::Dependency => "dependency",
        }
    }
}

/// The labels shared by every resource one run creates: its project, task
/// and run id, and the creating binary's version when there is one.
pub open spec fn shared_labels(
    project: Seq<char>,
    task: Seq<char>,
    run_id: Seq<char>,
    version: Option<Seq<char>>,
) -> Map<Seq<char>, Seq<char>> {
    let base = map![PROJECT@ => project, TASK@ => task, RUN@ => run_id];
    match version {
        Some(v) => base.insert(VERSION@, v),
        None => base,
    }
}

/// The labels of one container: the user's own `configured` labels, with
/// the run's shared labels and the container's name and role over them.
pub open spec fn container_labels(
    shared: Map<Seq<char>, Seq<char>>,
    container: Seq<char>,
    role: ContainerRole,
    configured: Map<Seq<char>, Seq<char>>,
) -> Map<Seq<char>, Seq<char>> {
    configured.union_prefer_right(shared).insert(CONTAINER@, container).insert(ROLE@, role_text(role))
}

/// The labels shared by every resource one task execution creates.
#[derive(Debug, Clone)]
pub struct RunLabels {
    project: String,
    task: String,
    run_id: String,
    version: Option<String>,
}

impl RunLabels {
    /// The shared labels these values make.
    pub closed spec fn shared_spec(&self) -> Map<Seq<char>, Seq<char>> {
        shared_labels(
            self.project@,
            self.task@,
            self.run_id@,
            match self.version {
                Some(v) => Some(v@),
                None => None,
            },
        )
    }

    pub fn new(project: &str, task: &str, run_id: &str, version: Option<&str>) -> (labels: Self)
        ensures
            labels.shared_spec() == shared_labels(
                project@,
                task@,
                run_id@,
                match version {
                    Some(v) => Some(v@),
                    None => None,
                },
            ),
    {
        let version = match version {
            Some(v) => Some(v.to_owned()),
            None => None,
        };
        RunLabels {
            project: project.to_owned(),
            task: task.to_owned(),
            run_id: run_id.to_owned(),
            version,
        }
    }

    /// The labels for a network created for this run.
    pub fn for_network(&self) -> (labels: TextMap<String>)
        ensures
            labels.text() == self.shared_spec(),
    {
        self.shared()
    }

    /// The labels for one container in this run, merged over `configured` —
    /// the user's own labels for that container. The run's own keys win on a
    /// collision, since cleanup relies on them; every other user label is
    /// passed through untouched.
    pub fn for_container(
        &self,
        container: &str,
        role: ContainerRole,
        configured: Option<&TextMap<String>>,
    ) -> (labels: TextMap<String>)
        ensures
            labels.text() == container_labels(
                self.shared_spec(),
                container@,
                role,
                match configured {
                    Some(c) => c.text(),
                    None => Map::empty(),
                },
            ),
    {
        let mut labels = match configured {
            Some(c) => c.duplicate(),
            None => TextMap::new(),
        };
        let ghost start = labels.text();
        assert(start =~= match configured {
            Some(c) => c.text(),
            None => Map::empty(),
        });
        let shared = self.shared();
        let mut i: usize = 0;
        while i < shared.len()
            invariant
                i <= shared.pairs().len(),
                labels.text() == start.union_prefer_right(
                    crate::text_map::pairs_to_map(shared.pairs().take(i as int)).map_values(|v: String| v@),
                ),
            decreases shared.pairs().len() - i,
        {
            let key = shared.key_at(i).clone();
            let value = shared.value_at(i).clone();
            let ghost before = labels@;
            let ghost before_text = labels.text();
            labels.insert(key, value);
            proof {
                assert(labels@ == before.insert(key@, value));
                let taken = shared.pairs().take(i as int);
                let p = shared.pairs()[i as int];
                assert(shared.pairs().take(i + 1) =~= taken.push(p));
                let expected = start.union_prefer_right(
                    crate::text_map::pairs_to_map(taken.push(p)).map_values(|v: String| v@),
                );
                assert forall|q: Seq<char>| #[trigger] labels.text().contains_key(q) == expected.contains_key(q)
                    && (labels.text().contains_key(q) ==> labels.text()[q] == expected[q]) by {
                    crate::text_map::lemma_last_index_of_push(taken, p, q);
                    crate::text_map::lemma_last_index_of_bounds(taken, q);
                    let m_old = crate::text_map::pairs_to_map(taken);
                    let m_new = crate::text_map::pairs_to_map(taken.push(p));
                    if q == key@ {
                        assert(m_new.contains_key(q));
                        assert(m_new[q] == value);
                        assert(labels@[q] == value);
                        assert(labels.text()[q] == value@);
                        assert(expected[q] == value@);
                    } else {
                        assert(m_new.contains_key(q) == m_old.contains_key(q));
                        assert(m_old.contains_key(q) ==> m_new[q] == m_old[q]);
                        assert(labels@.contains_key(q) == before.contains_key(q));
                        assert(labels.text().contains_key(q) == before_text.contains_key(q));
                        assert(before_text.contains_key(q) ==> labels.text()[q] == before_text[q]);
                    }
                }
                assert(labels.text() =~= expected);
            }
            i = i + 1;
        }
        assert(shared.pairs().take(i as int) =~= shared.pairs());
        let ghost merged = labels@;
        assert(merged.map_values(|v: String| v@) == start.union_prefer_right(self.shared_spec()));
        let container_key = CONTAINER.to_owned();
        let container_value = container.to_owned();
        labels.insert(container_key, container_value);
        let ghost with_container = labels@;
        let role_key = ROLE.to_owned();
        let role_value = role.as_str().to_owned();
        labels.insert(role_key, role_value);
        proof {
            assert(labels@ == with_container.insert(ROLE@, role_value));
            assert(with_container == merged.insert(CONTAINER@, container_value));
            assert(labels.text() =~= merged.map_values(|v: String| v@).insert(CONTAINER@, container@).insert(
                ROLE@,
                role_text(role),
            ));
            let expected = container_labels(
                self.shared_spec(),
                container@,
                role,
                match configured {
                    Some(c) => c.text(),
                    None => Map::empty(),
                },
            );
            assert(labels.text() =~= expected);
        }
        labels
    }

    fn shared(&self) -> (labels: TextMap<String>)
        ensures
            labels.text() == self.shared_spec(),
    {
        proof {
            lemma_keys_are_namespaced_and_distinct();
        }
        let mut labels = TextMap::new();
        labels.insert(PROJECT.to_owned(), self.project.clone());
        labels.insert(TASK.to_owned(), self.task.clone());
        labels.insert(RUN.to_owned(), self.run_id.clone());
        match &self.version {
            Some(version) => {
                labels.insert(VERSION.to_owned(), version.clone());
            },
            None => {},
        }
        assert(labels.text() =~= self.shared_spec());
        labels
    }
}

/// The run's own keys win over a configured label of the same name, every
/// other configured label is kept as written, and nothing else is added.
pub proof fn lemma_container_labels_own_keys_win(
    shared: Map<Seq<char>, Seq<char>>,
    container: Seq<char>,
    role: ContainerRole,
    configured: Map<Seq<char>, Seq<char>>,
    key: Seq<char>,
)
    ensures
        ({
            let labels = container_labels(shared, container, role, configured);
            &&& key == CONTAINER@ ==> labels[key] == container
            &&& key == ROLE@ ==> labels[key] == role_text(role)
            &&& key != CONTAINER@ && key != ROLE@ && shared.contains_key(key) ==> labels[key] == shared[key]
            &&& key != CONTAINER@ && key != ROLE@ && !shared.contains_key(key) ==> (
                labels.contains_key(key) == configured.contains_key(key)
                && (configured.contains_key(key) ==> labels[key] == configured[key]))
        }),
{
    lemma_keys_are_namespaced_and_distinct();
}

/// A network carries exactly the run-identifying labels: never a container
/// name or role, and a version only when one is known.
pub proof fn lemma_network_labels_identify_the_run(
    project: Seq<char>,
    task: Seq<char>,
    run_id: Seq<char>,
    version: Option<Seq<char>>,
)
    ensures
        ({
            let labels = shared_labels(project, task, run_id, version);
            &&& labels[PROJECT@] == project
            &&& labels[TASK@] == task
            &&& labels[RUN@] == run_id
            &&& !labels.contains_key(CONTAINER@)
            &&& !labels.contains_key(ROLE@)
            &&& labels.contains_key(VERSION@) == (version is Some)
            &&& version matches Some(v) ==> labels[VERSION@] == v
        }),
{
    lemma_keys_are_namespaced_and_distinct();
}

} // verus!
