//! Projects: the registry of known projects, which one is active, and how
//! creating, opening, closing and deleting a project change it.

use vstd::prelude::*;
use crate::generate::copy_opt;
use crate::refs::AetherError;
use crate::text::{first_index, lemma_first_index, lemma_first_index_none, owned, push_str, str_eq};
use crate::vault::new_uuid;

verus! {

/// The state of a registered project.
#[derive(Debug, Clone, Copy, PartialEq, Eq, Structural)]
pub enum ProjectStatus {
    Open,
    Closed,
    Missing,
}

/// A project known to the registry.
#[derive(Debug, Clone)]
pub struct ProjectRegistryEntry {
    pub project_id: String,
    pub name: String,
    pub root: String,
    pub last_opened_at_ms: i64,
    pub status: ProjectStatus,
}

/// A registry entry, as character sequences.
pub struct ProjectEntryView {
    pub id: Seq<char>,
    pub name: Seq<char>,
    pub root: Seq<char>,
    pub last_opened_at_ms: i64,
    pub status: ProjectStatus,
}

impl View for ProjectRegistryEntry {
    type V = ProjectEntryView;

    open spec fn view(&self) -> ProjectEntryView {
        ProjectEntryView {
            id: self.project_id@,
            name: self.name@,
            root: self.root@,
            last_opened_at_ms: self.last_opened_at_ms,
            status: self.status,
        }
    }
}

/// The views of a sequence of entries.
pub open spec fn projects_view(s: Seq<ProjectRegistryEntry>) -> Seq<ProjectEntryView> {
    s.map_values(|e: ProjectRegistryEntry| e@)
}

/// The registry of projects (`projects.json`).
#[derive(Debug, Clone)]
pub struct ProjectRegistry {
    pub schema_version: u32,
    pub active_project_id: Option<String>,
    pub projects: Vec<ProjectRegistryEntry>,
}

/// The metadata a project keeps in `.aether/project.json`.
#[derive(Debug, Clone)]
pub struct ProjectMetadata {
    pub schema_version: u32,
    pub project_id: String,
    pub name: String,
    pub root: String,
    pub created_at_ms: i64,
    pub updated_at_ms: i64,
    pub aether_version: String,
    pub description: Option<String>,
}

/// What to create a project from.
#[derive(Debug, Clone)]
pub struct ProjectCreateSpec {
    pub name: String,
    pub dir: Option<String>,
    pub adopt: bool,
    pub force: bool,
}

/// What deleting a project does with its directory.
#[derive(Debug, Clone, Copy, PartialEq, Eq, Structural)]
pub enum DeleteMode {
    Archive,
    Force,
}

/// What the directory a project is created in already holds.
#[derive(Debug, Clone, Copy, PartialEq, Eq, Structural)]
pub struct DirProbe {
    /// It has an `.aether` directory.
    pub has_aether: bool,
    /// It has `.aether/metadata.db`.
    pub has_db: bool,
    /// It has `.aether/project.json`.
    pub has_meta: bool,
    /// It has no entry at all.
    pub is_empty: bool,
}

/// The entry matches `target` by name or by id.
pub open spec fn named(e: ProjectEntryView, target: Seq<char>) -> bool {
    e.name == target || e.id == target
}

/// Which field an entry is looked up by.
pub enum Lookup {
    ByNameOrId,
    ById,
    ByRoot,
}

/// The entry matches `target` by the field `by` names.
pub open spec fn matches_by(e: ProjectEntryView, by: Lookup, target: Seq<char>) -> bool {
    match by {
        Lookup::ByNameOrId => named(e, target),
        Lookup::ById => e.id == target,
        Lookup::ByRoot => e.root == target,
    }
}

/// The position of the first entry named `target` (by name or id).
pub open spec fn named_index(s: Seq<ProjectEntryView>, target: Seq<char>) -> Option<int> {
    first_index(s, |e: ProjectEntryView| matches_by(e, Lookup::ByNameOrId, target))
}

/// The position of the first entry with id `id`.
pub open spec fn id_index(s: Seq<ProjectEntryView>, id: Seq<char>) -> Option<int> {
    first_index(s, |e: ProjectEntryView| matches_by(e, Lookup::ById, id))
}

/// The position of the first entry with root `root`.
pub open spec fn root_index(s: Seq<ProjectEntryView>, root: Seq<char>) -> Option<int> {
    first_index(s, |e: ProjectEntryView| matches_by(e, Lookup::ByRoot, root))
}

fn find_entry(s: &Vec<ProjectRegistryEntry>, by: Lookup, target: &str) -> (r: Option<usize>)
    ensures
        match r {
            Some(i) => i < s.len() && first_index(projects_view(s@), |e: ProjectEntryView| matches_by(e, by, target@)) == Some(
                i as int,
            ),
            None => first_index(projects_view(s@), |e: ProjectEntryView| matches_by(e, by, target@)) is None,
        },
{
    let ghost pv = projects_view(s@);
    let mut i: usize = 0;
    while i < s.len()
        invariant
            i <= s.len(),
            pv == projects_view(s@),
            forall|j: int| 0 <= j < i ==> !matches_by(#[trigger] pv[j], by, target@),
        decreases s.len() - i,
    {
        assert(pv[i as int] == s@[i as int]@);
        let e = &s[i];
        let hit = match by {
            Lookup::ByNameOrId => str_eq(e.name.as_str(), target) || str_eq(e.project_id.as_str(), target),
            Lookup::ById => str_eq(e.project_id.as_str(), target),
            Lookup::ByRoot => str_eq(e.root.as_str(), target),
        };
        if hit {
            proof {
                lemma_first_index(pv, |e: ProjectEntryView| matches_by(e, by, target@), i as int);
            }
            return Some(i);
        }
        i = i + 1;
    }
    proof {
        lemma_first_index_none(pv, |e: ProjectEntryView| matches_by(e, by, target@));
    }
    None
}

fn copy_entry(e: &ProjectRegistryEntry) -> (r: ProjectRegistryEntry)
    ensures
        r@ == e@,
{
    ProjectRegistryEntry {
        project_id: e.project_id.clone(),
        name: e.name.clone(),
        root: e.root.clone(),
        last_opened_at_ms: e.last_opened_at_ms,
        status: e.status,
    }
}

pub open spec fn msg_project_exists(name: Seq<char>, id: Seq<char>) -> Seq<char> {
    "Directory already contains AETHER project '"@ + name + "' ("@ + id + ")"@
}

pub open spec fn msg_legacy_db() -> Seq<char> {
    "Directory contains an unmanaged/legacy AETHER database. Use --adopt or --force."@
}

pub open spec fn msg_not_empty() -> Seq<char> {
    "Directory is not empty. Use --adopt or --force to create project here."@
}

/// The registry after creating project `id` named `name` at `root` at `now`:
/// entries at the same root or with the same name go, the new one is added, open,
/// and it becomes the active project.
pub open spec fn created_projects(s: Seq<ProjectEntryView>, id: Seq<char>, name: Seq<char>, root: Seq<char>, now: i64) -> Seq<ProjectEntryView> {
    s.filter(|e: ProjectEntryView| e.root != root && e.name != name).push(
        ProjectEntryView { id, name, root, last_opened_at_ms: now, status: ProjectStatus::Open },
    )
}

/// The entries after opening project `id` (named `name`, at `root`) at `now`:
/// its entry, if any, is open and was opened now; otherwise a new entry is added.
pub open spec fn opened_projects(s: Seq<ProjectEntryView>, id: Seq<char>, name: Seq<char>, root: Seq<char>, now: i64) -> Seq<ProjectEntryView> {
    match id_index(s, id) {
        Some(i) => s.update(
            i,
            ProjectEntryView { id: s[i].id, name: s[i].name, root: s[i].root, last_opened_at_ms: now, status: ProjectStatus::Open },
        ),
        None => s.push(ProjectEntryView { id, name, root, last_opened_at_ms: now, status: ProjectStatus::Open }),
    }
}

/// Manages the registry of projects.
#[derive(Debug, Clone)]
pub struct ProjectManager {
    registry_path: String,
}

impl ProjectManager {
    /// The path of the registry file.
    pub closed spec fn registry(&self) -> Seq<char> {
        self.registry_path@
    }

    /// A manager whose registry lives at `registry_path`.
    pub fn with_registry_path(registry_path: String) -> (r: ProjectManager)
        ensures
            r.registry() == registry_path@,
    {
        ProjectManager { registry_path }
    }

    /// The path of the registry file.
    pub fn registry_path(&self) -> (r: String)
        ensures
            r@ == self.registry(),
    {
        self.registry_path.clone()
    }

    /// The entry of the active project, if there is one and the registry knows it.
    pub fn current(&self, registry: &ProjectRegistry) -> (r: Option<ProjectRegistryEntry>)
        ensures
            match registry.active_project_id {
                None => r is None,
                Some(id) => match id_index(projects_view(registry.projects@), id@) {
                    Some(i) => r matches Some(e) && e@ == projects_view(registry.projects@)[i],
                    None => r is None,
                },
            },
    {
        match &registry.active_project_id {
            None => None,
            Some(id) => match find_entry(&registry.projects, Lookup::ById, id.as_str()) {
                Some(i) => {
                    assert(projects_view(registry.projects@)[i as int] == registry.projects@[i as int]@);
                    Some(copy_entry(&registry.projects[i]))
                },
                None => None,
            },
        }
    }

    /// The registered projects, those whose root is gone marked missing;
    /// `root_exists[i]` tells whether the `i`-th project's root exists.
    pub fn list(&self, registry: ProjectRegistry, root_exists: &Vec<bool>) -> (r: Vec<ProjectRegistryEntry>)
        ensures
            r@.len() == registry.projects@.len(),
            forall|i: int|
                0 <= i < r@.len() ==> (#[trigger] r@[i])@ == (if i < root_exists@.len() && !root_exists@[i] {
                    ProjectEntryView { status: ProjectStatus::Missing, ..registry.projects@[i]@ }
                } else {
                    registry.projects@[i]@
                }),
    {
        let mut projects = registry.projects;
        let ghost p0 = projects@;
        let mut i: usize = 0;
        while i < projects.len()
            invariant
                i <= projects.len(),
                projects@.len() == p0.len(),
                forall|j: int|
                    0 <= j < i ==> (#[trigger] projects@[j])@ == (if j < root_exists@.len() && !root_exists@[j] {
                        ProjectEntryView { status: ProjectStatus::Missing, ..p0[j]@ }
                    } else {
                        p0[j]@
                    }),
                forall|j: int| i <= j < p0.len() ==> (#[trigger] projects@[j]) == p0[j],
            decreases projects.len() - i,
        {
            if i < root_exists.len() && !root_exists[i] {
                projects[i].status = ProjectStatus::Missing;
            }
            i = i + 1;
        }
        projects
    }

    /// Creates project `spec.name` in `root_dir` (the canonical directory it is
    /// created in) at `now_ms`, given what the directory holds (`probe`), the
    /// metadata found there (`existing`, read when it holds a project) and the
    /// `registry`. A directory that holds a project is refused unless forced; one
    /// with an unmanaged database, or one that is not empty and has no `.aether`
    /// directory, unless adopted or forced. Returns the new project's metadata and
    /// the new registry.
    pub fn create(
        &self,
        spec: &ProjectCreateSpec,
        root_dir: &str,
        probe: DirProbe,
        existing: Option<Result<ProjectMetadata, AetherError>>,
        registry: ProjectRegistry,
        now_ms: i64,
    ) -> (r: Result<(ProjectMetadata, ProjectRegistry), AetherError>)
        requires
            probe.has_meta ==> existing is Some,
        ensures
            probe.has_meta && !spec.force ==> match existing {
                Some(Ok(m)) => r matches Err(AetherError::OperationFailed(e)) && e@ == msg_project_exists(m.name@, m.project_id@),
                Some(Err(e)) => r == Err::<(ProjectMetadata, ProjectRegistry), AetherError>(e),
                None => false,
            },
            !(probe.has_meta && !spec.force) && probe.has_db && !probe.has_meta && !spec.adopt && !spec.force ==> (r matches Err(
                AetherError::OperationFailed(e),
            ) && e@ == msg_legacy_db()),
            !(probe.has_meta && !spec.force) && !(probe.has_db && !probe.has_meta && !spec.adopt && !spec.force)
                && !probe.has_aether && !probe.is_empty && !spec.adopt && !spec.force ==> (r matches Err(
                AetherError::OperationFailed(e),
            ) && e@ == msg_not_empty()),
            r matches Ok((m, reg)) ==> m.schema_version == 1 && m.project_id@.len() == 36 && m.name@ == spec.name@
                && m.root@ == root_dir@ && m.created_at_ms == now_ms && m.updated_at_ms == now_ms && m.aether_version@
                == "0.1.0"@ && m.description is None && reg.schema_version == registry.schema_version
                && (reg.active_project_id matches Some(a) && a@ == m.project_id@) && projects_view(reg.projects@)
                == created_projects(projects_view(registry.projects@), m.project_id@, spec.name@, root_dir@, now_ms),
            !(probe.has_meta && !spec.force) && !(probe.has_db && !probe.has_meta && !spec.adopt && !spec.force) && !(
            !probe.has_aether && !probe.is_empty && !spec.adopt && !spec.force) ==> r is Ok,
    {
        if probe.has_meta && !spec.force {
            match existing {
                Some(Ok(m)) => {
                    let mut e = owned("Directory already contains AETHER project '");
                    push_str(&mut e, m.name.as_str());
                    push_str(&mut e, "' (");
                    push_str(&mut e, m.project_id.as_str());
                    push_str(&mut e, ")");
                    return Err(AetherError::OperationFailed(e));
                },
                Some(Err(e)) => return Err(e),
                None => return Err(AetherError::OperationFailed(owned("project.json does not exist"))),
            }
        }
        if probe.has_db && !probe.has_meta && !spec.adopt && !spec.force {
            return Err(AetherError::OperationFailed(
                owned("Directory contains an unmanaged/legacy AETHER database. Use --adopt or --force."),
            ));
        }
        if !probe.has_aether && !probe.is_empty && !spec.adopt && !spec.force {
            return Err(AetherError::OperationFailed(owned("Directory is not empty. Use --adopt or --force to create project here.")));
        }
        let project_id = new_uuid();
        let meta = ProjectMetadata {
            schema_version: 1,
            project_id: project_id.clone(),
            name: spec.name.clone(),
            root: owned(root_dir),
            created_at_ms: now_ms,
            updated_at_ms: now_ms,
            aether_version: owned("0.1.0"),
            description: None,
        };
        let ghost pv = projects_view(registry.projects@);
        let mut kept: Vec<ProjectRegistryEntry> = Vec::new();
        let mut i: usize = 0;
        assert(pv.subrange(0, 0) =~= Seq::<ProjectEntryView>::empty());
        while i < registry.projects.len()
            invariant
                i <= registry.projects.len(),
                pv == projects_view(registry.projects@),
                projects_view(kept@) == pv.subrange(0, i as int).filter(
                    |e: ProjectEntryView| e.root != root_dir@ && e.name != spec.name@,
                ),
            decreases registry.projects.len() - i,
        {
            let e = &registry.projects[i];
            proof {
                assert(pv[i as int] == e@);
                assert(pv.subrange(0, i + 1) =~= pv.subrange(0, i as int).push(e@));
                pv.subrange(0, i as int).lemma_filter_push(e@, |e: ProjectEntryView| e.root != root_dir@ && e.name != spec.name@);
            }
            if !str_eq(e.root.as_str(), root_dir) && !str_eq(e.name.as_str(), spec.name.as_str()) {
                let c = copy_entry(e);
                let ghost before = kept@;
                kept.push(c);
                assert(projects_view(kept@) =~= projects_view(before).push(c@));
            }
            i = i + 1;
        }
        assert(pv.subrange(0, i as int) =~= pv);
        let entry = ProjectRegistryEntry {
            project_id: project_id.clone(),
            name: spec.name.clone(),
            root: owned(root_dir),
            last_opened_at_ms: now_ms,
            status: ProjectStatus::Open,
        };
        let ghost before = kept@;
        kept.push(entry);
        assert(projects_view(kept@) =~= projects_view(before).push(
            ProjectEntryView { id: project_id@, name: spec.name@, root: root_dir@, last_opened_at_ms: now_ms, status: ProjectStatus::Open },
        ));
        let reg = ProjectRegistry {
            schema_version: registry.schema_version,
            active_project_id: Some(project_id),
            projects: kept,
        };
        Ok((meta, reg))
    }

    /// The registered project named `target` (by name or id).
    pub fn find_project<'a>(&self, registry: &'a ProjectRegistry, target: &str) -> (r: Result<&'a ProjectRegistryEntry, AetherError>)
        ensures
            match named_index(projects_view(registry.projects@), target@) {
                Some(i) => r matches Ok(e) && e@ == projects_view(registry.projects@)[i],
                None => r matches Err(AetherError::OperationFailed(m)) && m@ == "Project '"@ + target@ + "' not found in registry"@,
            },
    {
        match find_entry(&registry.projects, Lookup::ByNameOrId, target) {
            Some(i) => {
                assert(projects_view(registry.projects@)[i as int] == registry.projects@[i as int]@);
                Ok(&registry.projects[i])
            },
            None => {
                let mut m = owned("Project '");
                push_str(&mut m, target);
                push_str(&mut m, "' not found in registry");
                Err(AetherError::OperationFailed(m))
            },
        }
    }

    /// The registry after opening the project described by `meta`, found at
    /// `root`, at `now_ms`: it is open and active.
    pub fn open(&self, registry: ProjectRegistry, meta: &ProjectMetadata, root: &str, now_ms: i64) -> (r: ProjectRegistry)
        ensures
            r.schema_version == registry.schema_version,
            r.active_project_id matches Some(a) && a@ == meta.project_id@,
            projects_view(r.projects@) == opened_projects(
                projects_view(registry.projects@),
                meta.project_id@,
                meta.name@,
                root@,
                now_ms,
            ),
    {
        let mut registry = registry;
        let ghost pv = projects_view(registry.projects@);
        match find_entry(&registry.projects, Lookup::ById, meta.project_id.as_str()) {
            Some(i) => {
                registry.projects[i].status = ProjectStatus::Open;
                registry.projects[i].last_opened_at_ms = now_ms;
                assert(projects_view(registry.projects@) =~= opened_projects(pv, meta.project_id@, meta.name@, root@, now_ms));
            },
            None => {
                let e = ProjectRegistryEntry {
                    project_id: meta.project_id.clone(),
                    name: meta.name.clone(),
                    root: owned(root),
                    last_opened_at_ms: now_ms,
                    status: ProjectStatus::Open,
                };
                registry.projects.push(e);
                assert(projects_view(registry.projects@) =~= opened_projects(pv, meta.project_id@, meta.name@, root@, now_ms));
            },
        }
        registry.active_project_id = Some(meta.project_id.clone());
        registry
    }

    /// Closes project `target` (by name or id, or by its canonical root
    /// `canonical` when the target is a path), or the active project without a
    /// target: its entry is closed, and it is no longer active.
    pub fn close(&self, registry: ProjectRegistry, target: Option<&str>, canonical: Option<&str>) -> (r: Result<ProjectRegistry, AetherError>)
        ensures
            ({
                let pv = projects_view(registry.projects@);
                let found: Option<int> = match target {
                    Some(t) => match canonical {
                        Some(c) => root_index(pv, c@),
                        None => named_index(pv, t@),
                    },
                    None => None,
                };
                let id: Option<Seq<char>> = match target {
                    Some(_) => match found {
                        Some(i) => Some(pv[i].id),
                        None => None,
                    },
                    None => match registry.active_project_id {
                        Some(a) => Some(a@),
                        None => None,
                    },
                };
                &&& target matches Some(t) ==> (found is None ==> (r matches Err(AetherError::OperationFailed(m)) && m@
                    == "Project '"@ + t@ + "' not found"@))
                &&& target is None && id is None ==> (r matches Err(AetherError::OperationFailed(m)) && m@
                    == "No active project to close"@)
                &&& id matches Some(x) ==> (r matches Ok(reg) && reg.schema_version == registry.schema_version
                    && projects_view(reg.projects@) == match id_index(pv, x) {
                        Some(j) => pv.update(j, ProjectEntryView { status: ProjectStatus::Closed, ..pv[j] }),
                        None => pv,
                    } && (reg.active_project_id matches Some(a) ==> a@ != x && registry.active_project_id
                        == reg.active_project_id) && (reg.active_project_id is None ==> registry.active_project_id is None
                        || registry.active_project_id->0@ == x))
            }),
    {
        let ghost pv = projects_view(registry.projects@);
        let target_id: Option<String> = match target {
            Some(t) => {
                let found = match canonical {
                    Some(c) => find_entry(&registry.projects, Lookup::ByRoot, c),
                    None => find_entry(&registry.projects, Lookup::ByNameOrId, t),
                };
                match found {
                    Some(i) => {
                        assert(pv[i as int] == registry.projects@[i as int]@);
                        Some(registry.projects[i].project_id.clone())
                    },
                    None => {
                        let mut m = owned("Project '");
                        push_str(&mut m, t);
                        push_str(&mut m, "' not found");
                        return Err(AetherError::OperationFailed(m));
                    },
                }
            },
            None => copy_opt(&registry.active_project_id),
        };
        let id = match target_id {
            Some(id) => id,
            None => return Err(AetherError::OperationFailed(owned("No active project to close"))),
        };
        let mut registry = registry;
        match find_entry(&registry.projects, Lookup::ById, id.as_str()) {
            Some(j) => {
                registry.projects[j].status = ProjectStatus::Closed;
                assert(projects_view(registry.projects@) =~= pv.update(
                    j as int,
                    ProjectEntryView { status: ProjectStatus::Closed, ..pv[j as int] },
                ));
            },
            None => {},
        }
        let is_active = match &registry.active_project_id {
            Some(a) => str_eq(a.as_str(), id.as_str()),
            None => false,
        };
        if is_active {
            registry.active_project_id = None;
        }
        Ok(registry)
    }

    /// Removes project `target` (by name or id, or by its canonical root
    /// `canonical` when the target is a path) from the registry, no longer active.
    /// Returns the new registry and the removed entry.
    pub fn delete(&self, registry: ProjectRegistry, target: &str, canonical: Option<&str>) -> (r: Result<(ProjectRegistry, ProjectRegistryEntry), AetherError>)
        ensures
            ({
                let pv = projects_view(registry.projects@);
                let found: Option<int> = match canonical {
                    Some(c) => root_index(pv, c@),
                    None => named_index(pv, target@),
                };
                &&& found is None && canonical is Some ==> (r matches Err(AetherError::OperationFailed(m)) && m@
                    == "Project path '"@ + target@ + "' not found in registry"@)
                &&& found is None && canonical is None ==> (r matches Err(AetherError::OperationFailed(m)) && m@
                    == "Project '"@ + target@ + "' not found in registry"@)
                &&& found matches Some(i) ==> (r matches Ok((reg, e)) && e@ == pv[i] && reg.schema_version
                    == registry.schema_version && projects_view(reg.projects@) == pv.remove(i) && (
                match registry.active_project_id {
                    Some(a) => if a@ == pv[i].id {
                        reg.active_project_id is None
                    } else {
                        reg.active_project_id == registry.active_project_id
                    },
                    None => reg.active_project_id is None,
                }))
            }),
    {
        let ghost pv = projects_view(registry.projects@);
        let found = match canonical {
            Some(c) => find_entry(&registry.projects, Lookup::ByRoot, c),
            None => find_entry(&registry.projects, Lookup::ByNameOrId, target),
        };
        let i = match found {
            Some(i) => i,
            None => {
                let mut m = if canonical.is_some() { owned("Project path '") } else { owned("Project '") };
                push_str(&mut m, target);
                push_str(&mut m, "' not found in registry");
                return Err(AetherError::OperationFailed(m));
            },
        };
        let mut registry = registry;
        assert(pv[i as int] == registry.projects@[i as int]@);
        let is_active = match &registry.active_project_id {
            Some(a) => str_eq(a.as_str(), registry.projects[i].project_id.as_str()),
            None => false,
        };
        if is_active {
            registry.active_project_id = None;
        }
        let entry = registry.projects.remove(i);
        assert(projects_view(registry.projects@) =~= pv.remove(i as int));
        Ok((registry, entry))
    }
}

} // verus!
