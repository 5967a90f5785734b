//! What the configuration declares, and the layout that starts from it.

use vstd::prelude::*;

use crate::activity::{Activities, ActivitiesModel, Activity, ActivityModel, ViewEntry};
use crate::bookmarks::{Bookmarks, BookmarksModel};
use crate::ids::{ActivityId, OutputId, WorkspaceId};
use crate::layout::{Layout, LayoutModel, Options};
use crate::monitor::Monitor;
use crate::pool::{PoolModel, WorkspacePool};
use crate::search::{find, find_from};
use crate::text::{eq_exact, eq_ignore_ascii_case, same_name};
use crate::workspace::{Workspace, WorkspaceModel};

verus! {

/// Mathematical model of a [`WorkspaceDecl`].
#[verifier::ext_equal]
pub struct WorkspaceDeclModel {
    pub name: Seq<char>,
    pub activities: Seq<Seq<char>>,
    pub sticky: bool,
    pub open_on_output: Option<OutputId>,
}

/// A workspace that the configuration declares.
#[derive(Debug)]
pub struct WorkspaceDecl {
    /// Its name.
    pub name: String,
    /// The activities it belongs to, by name.
    pub activities: Vec<String>,
    /// Whether it belongs to every activity.
    pub sticky: bool,
    /// The output it opens on.
    pub open_on_output: Option<OutputId>,
}

/// The texts of a sequence of strings.
pub open spec fn texts(s: Seq<String>) -> Seq<Seq<char>> {
    Seq::new(s.len(), |i: int| s[i]@)
}

impl View for WorkspaceDecl {
    type V = WorkspaceDeclModel;

    open spec fn view(&self) -> WorkspaceDeclModel {
        WorkspaceDeclModel {
            name: self.name@,
            activities: texts(self.activities@),
            sticky: self.sticky,
            open_on_output: self.open_on_output,
        }
    }
}

/// The models of a sequence of declarations.
pub open spec fn decl_models(s: Seq<WorkspaceDecl>) -> Seq<WorkspaceDeclModel> {
    Seq::new(s.len(), |i: int| s[i]@)
}

/// What the configuration says about the layout.
#[derive(Debug)]
pub struct Config {
    /// The declared activities, by name.
    pub activities: Vec<String>,
    /// The declared workspaces.
    pub workspaces: Vec<WorkspaceDecl>,
    /// What shapes the layout as a whole.
    pub options: Options,
}

/// Whether one of `names` is `name` up to case.
pub open spec fn among(names: Seq<Seq<char>>, name: Seq<char>) -> bool {
    exists|i: int| 0 <= i < names.len() && same_name(#[trigger] names[i], name)
}

/// The predicate that picks the activities that `names` mentions.
pub open spec fn mentioned(names: Seq<Seq<char>>) -> spec_fn(ActivityModel) -> bool {
    |a: ActivityModel| among(names, a.name)
}

/// The ids of a sequence of activities.
pub open spec fn activity_ids(s: Seq<ActivityModel>) -> Seq<ActivityId> {
    Seq::new(s.len(), |i: int| s[i].id)
}

impl ActivitiesModel {
    /// The activities that the declared workspace `d` belongs to: all of them if it is sticky,
    /// else those it mentions, else the active one.
    pub open spec fn declared_for(self, d: WorkspaceDeclModel) -> Seq<ActivityId> {
        let found = activity_ids(self.list.filter(mentioned(d.activities)));
        if d.sticky {
            self.ids()
        } else if found.len() == 0 {
            seq![self.active]
        } else {
            found
        }
    }

    /// The activity at `i` of those that the configuration declares by `names`. The first one is
    /// active.
    pub open spec fn declared_at(names: Seq<Seq<char>>, i: int) -> ActivityModel {
        ActivityModel {
            id: ActivityId((i + 1) as u64),
            name: names[i],
            declared: true,
            last_active_seq: if i == 0 {
                1
            } else {
                0
            },
            views: Seq::empty(),
        }
    }

    /// The single activity of a layout without declared ones.
    pub open spec fn lone() -> ActivitiesModel {
        ActivitiesModel {
            list: seq![
                ActivityModel {
                    id: ActivityId(1),
                    name: "Default"@,
                    declared: false,
                    last_active_seq: 1,
                    views: Seq::empty(),
                },
            ],
            active: ActivityId(1),
            previous: None,
            next: 2,
            seq: 1,
        }
    }

    /// The activities that the configuration declares by `names`, or the single one.
    pub open spec fn declared(names: Seq<Seq<char>>) -> ActivitiesModel {
        if names.len() == 0 {
            ActivitiesModel::lone()
        } else {
            ActivitiesModel {
                list: Seq::new(names.len(), |i: int| ActivitiesModel::declared_at(names, i)),
                active: ActivityId(1),
                previous: None,
                next: names.len() as int + 1,
                seq: 1,
            }
        }
    }
}

impl PoolModel {
    /// The declared workspace `d` added, in the activities `acts`, on output `out` if there is one.
    pub open spec fn mint_declared(
        self,
        d: WorkspaceDeclModel,
        acts: Seq<ActivityId>,
        out: Option<OutputId>,
    ) -> PoolModel {
        PoolModel {
            items: self.items.push(
                WorkspaceModel {
                    id: self.next_id(),
                    name: Some(d.name),
                    output_id: if d.open_on_output is Some {
                        d.open_on_output
                    } else if out is Some {
                        out
                    } else {
                        Some(OutputId(0))
                    },
                    bound: out,
                    activities: acts,
                    sticky: d.sticky,
                    tiles: Seq::empty(),
                    active: None,
                    scroll_lock: false,
                    view_gesture: None,
                },
            ),
            next: self.next + 1,
        }
    }

    /// The declared workspaces `decls` added, in the activities of `acts`, on no output.
    pub open spec fn mint_all(self, decls: Seq<WorkspaceDeclModel>, acts: ActivitiesModel) -> PoolModel
        decreases decls.len(),
    {
        if decls.len() == 0 {
            self
        } else {
            let d = decls.last();
            self.mint_all(decls.drop_last(), acts).mint_declared(d, acts.declared_for(d), None)
        }
    }
}

impl LayoutModel {
    /// A layout without outputs.
    pub open spec fn outset(
        acts: ActivitiesModel,
        pool: PoolModel,
        parked: Seq<WorkspaceId>,
        options: Options,
    ) -> LayoutModel {
        LayoutModel {
            monitors: Seq::empty(),
            primary: 0,
            focused: 0,
            parked,
            pool,
            acts,
            remembered: Seq::empty(),
            strips: Seq::empty(),
            moving: None,
            dnd: None,
            overview_open: false,
            progress: None,
            is_active: true,
            options,
            bookmarks: BookmarksModel {
                list: Seq::empty(),
                next: 1,
                cursor: None,
                last_visited: None,
                return_target: None,
            },
        }
    }

    /// The layout that the configuration starts from.
    pub open spec fn configured(
        names: Seq<Seq<char>>,
        decls: Seq<WorkspaceDeclModel>,
        options: Options,
    ) -> LayoutModel {
        let acts = ActivitiesModel::declared(names);
        LayoutModel::outset(
            acts,
            (PoolModel { items: Seq::empty(), next: 1 }).mint_all(decls, acts),
            Seq::new(decls.len(), |i: int| WorkspaceId((i + 1) as u64)),
            options,
        )
    }
}

/// Whether one of `names` is `name` up to case.
pub fn is_among(names: &Vec<String>, name: &str) -> (b: bool)
    ensures
        b == among(texts(names@), name@),
{
    let ghost all = texts(names@);
    let mut i: usize = 0;
    while i < names.len()
        invariant
            i <= names@.len(),
            all == texts(names@),
            forall|j: int| 0 <= j < i ==> !same_name(#[trigger] all[j], name@),
        decreases names@.len() - i,
    {
        if eq_ignore_ascii_case(names[i].as_str(), name) {
            assert(same_name(all[i as int], name@));
            return true;
        }
        i = i + 1;
    }
    false
}

/// The activities that the declared workspace `decl` belongs to.
pub fn resolve_workspace_activities_for(activities: &Activities, decl: &WorkspaceDecl) -> (r: Vec<
    ActivityId,
>)
    ensures
        r@ == activities@.declared_for(decl@),
{
    if decl.sticky {
        return activities.ids();
    }
    let ghost p = mentioned(decl@.activities);
    let ghost all = activities@.list;
    let mut r: Vec<ActivityId> = Vec::new();
    let mut i: usize = 0;
    while i < activities.list.len()
        invariant
            i <= activities.list@.len(),
            all == activities@.list,
            p == mentioned(decl@.activities),
            r@ == activity_ids(all.take(i as int).filter(p)),
        decreases activities.list@.len() - i,
    {
        let ghost before = all.take(i as int).filter(p);
        proof {
            assert(all[i as int] == activities.list@[i as int]@);
            assert(all.take(i + 1).drop_last() =~= all.take(i as int));
            assert(all.take(i + 1).last() == all[i as int]);
            reveal(Seq::filter);
        }
        if is_among(&decl.activities, activities.list[i].name.as_str()) {
            r.push(activities.list[i].id);
            assert(r@ =~= activity_ids(before.push(all[i as int])));
        }
        i = i + 1;
    }
    assert(all.take(i as int) =~= all);
    if r.len() == 0 {
        r.push(activities.active);
    }
    r
}

impl Activities {
    /// The single activity of a layout without declared ones.
    pub fn lone() -> (a: Activities)
        ensures
            a@ == ActivitiesModel::lone(),
    {
        let views: Vec<ViewEntry> = Vec::new();
        let mut list: Vec<Activity> = Vec::new();
        list.push(
            Activity {
                id: ActivityId(1),
                name: "Default".to_owned(),
                declared: false,
                last_active_seq: 1,
                views,
            },
        );
        let a = Activities { list, active: ActivityId(1), previous: None, next_id: 2, seq: 1 };
        assert(a@.list[0].views =~= Seq::empty());
        assert(a@ =~= ActivitiesModel::lone());
        a
    }

    /// The activities that the configuration declares by `names`, or the single one.
    pub fn from_config_or_default(names: &Vec<String>) -> (a: Activities)
        requires
            names@.len() < u64::MAX,
        ensures
            a@ == ActivitiesModel::declared(texts(names@)),
    {
        if names.len() == 0 {
            return Activities::lone();
        }
        let ghost all = texts(names@);
        let mut list: Vec<Activity> = Vec::new();
        let mut i: usize = 0;
        while i < names.len()
            invariant
                i <= names@.len() < u64::MAX,
                all == texts(names@),
                list@.len() == i,
                forall|j: int|
                    0 <= j < i ==> (#[trigger] list@[j])@ == ActivitiesModel::declared_at(all, j),
            decreases names@.len() - i,
        {
            let views: Vec<ViewEntry> = Vec::new();
            let a = Activity {
                id: ActivityId(i as u64 + 1),
                name: names[i].clone(),
                declared: true,
                last_active_seq: if i == 0 {
                    1
                } else {
                    0
                },
                views,
            };
            assert(a@.views =~= Seq::empty());
            list.push(a);
            i = i + 1;
        }
        let a = Activities {
            list,
            active: ActivityId(1),
            previous: None,
            next_id: i as u64 + 1,
            seq: 1,
        };
        assert(a@.list =~= ActivitiesModel::declared(all).list);
        a
    }
}

impl WorkspacePool {
    /// Adds the declared workspace `decl`, in the activities `acts`, and returns its id.
    pub(crate) fn mint_declared(
        &mut self,
        decl: &WorkspaceDecl,
        acts: Vec<ActivityId>,
        out: Option<OutputId>,
    ) -> (id: WorkspaceId)
        requires
            old(self).next_id < u64::MAX,
        ensures
            id == old(self)@.next_id(),
            final(self)@ == old(self)@.mint_declared(decl@, acts@, out),
            final(self).next_id == old(self).next_id + 1,
    {
        let id = WorkspaceId(self.next_id);
        self.next_id = self.next_id + 1;
        let ghost members = acts@;
        let w = Workspace {
            id,
            name: Some(decl.name.clone()),
            output_id: match decl.open_on_output {
                Some(o) => Some(o),
                None => match out {
                    Some(o) => Some(o),
                    None => Some(OutputId(0)),
                },
            },
            bound: out,
            activities: acts,
            sticky: decl.sticky,
            tiles: Vec::new(),
            active: None,
            scroll_lock: false,
            view_gesture: None,
        };
        assert(w@.tiles =~= Seq::empty());
        self.items.push(w);
        assert(self@.items =~= old(self)@.mint_declared(decl@, members, out).items);
        id
    }
}

impl Layout {
    /// A layout without outputs.
    fn outset(
        activities: Activities,
        workspaces: WorkspacePool,
        parked: Vec<WorkspaceId>,
        options: Options,
    ) -> (l: Layout)
        ensures
            l@ == LayoutModel::outset(activities@, workspaces@, parked@, options),
    {
        let monitors: Vec<Monitor> = Vec::new();
        let ghost model = LayoutModel::outset(activities@, workspaces@, parked@, options);
        let l = Layout {
            monitors,
            primary_idx: 0,
            active_monitor_idx: 0,
            disconnected_workspace_ids: parked,
            workspaces,
            activities,
            last_active_workspace_id: Vec::new(),
            strips: Vec::new(),
            interactive_move: None,
            dnd: None,
            overview_open: false,
            overview_progress: None,
            is_active: true,
            options,
            bookmarks: Bookmarks::new(),
        };
        assert(l@ =~= model);
        l
    }

    /// A layout with a single activity and no workspaces.
    pub fn with_options(options: Options) -> (l: Layout)
        ensures
            l@ == LayoutModel::outset(
                ActivitiesModel::lone(),
                (PoolModel { items: Seq::empty(), next: 1 }),
                Seq::empty(),
                options,
            ),
            l@.whole(),
            l@.orderly(),
    {
        proof {
            crate::beginnings::law_beginnings_are_whole(options);
        }
        let parked: Vec<WorkspaceId> = Vec::new();
        Layout::outset(Activities::lone(), WorkspacePool::new(), parked, options)
    }

    /// The layout that `config` starts from: its activities, the first of them active, and its
    /// workspaces, all waiting for an output.
    pub fn new(config: &Config) -> (l: Layout)
        requires
            config.activities@.len() < u64::MAX,
            config.workspaces@.len() < u64::MAX,
        ensures
            l@ == LayoutModel::configured(
                texts(config.activities@),
                decl_models(config.workspaces@),
                config.options,
            ),
            l@.whole(),
            l@.orderly(),
    {
        proof {
            crate::beginnings::law_configured_is_whole(
                texts(config.activities@),
                decl_models(config.workspaces@),
                config.options,
            );
        }
        let activities = Activities::from_config_or_default(&config.activities);
        let ghost decls = decl_models(config.workspaces@);
        let ghost blank = PoolModel { items: Seq::empty(), next: 1 };
        let mut pool = WorkspacePool::new();
        let mut parked: Vec<WorkspaceId> = Vec::new();
        let mut i: usize = 0;
        while i < config.workspaces.len()
            invariant
                i <= config.workspaces@.len() < u64::MAX,
                decls == decl_models(config.workspaces@),
                pool@ == blank.mint_all(decls.take(i as int), activities@),
                pool.next_id == i + 1,
                parked@ == Seq::new(i as nat, |j: int| WorkspaceId((j + 1) as u64)),
            decreases config.workspaces@.len() - i,
        {
            let acts = resolve_workspace_activities_for(&activities, &config.workspaces[i]);
            let id = pool.mint_declared(&config.workspaces[i], acts, None);
            parked.push(id);
            i = i + 1;
            assert(decls.take(i as int).drop_last() =~= decls.take(i - 1));
            assert(parked@ =~= Seq::new(i as nat, |j: int| WorkspaceId((j + 1) as u64)));
        }
        assert(decls.take(i as int) =~= decls);
        assert(parked@ =~= Seq::new(decls.len(), |j: int| WorkspaceId((j + 1) as u64)));
        Layout::outset(activities, pool, parked, config.options)
    }
}

/// The predicate that picks the declaration of the workspace with the exact name `name`.
pub open spec fn declares(name: Seq<char>) -> spec_fn(WorkspaceDeclModel) -> bool {
    |d: WorkspaceDeclModel| d.name == name
}

/// Of the workspaces `items`, those that `decls` declare, each with the first declaration of its
/// name.
pub open spec fn declared(
    items: Seq<WorkspaceModel>,
    decls: Seq<WorkspaceDeclModel>,
) -> Seq<(WorkspaceId, usize)>
    decreases items.len(),
{
    if items.len() == 0 {
        Seq::empty()
    } else {
        let before = declared(items.drop_last(), decls);
        match items.last().name {
            Some(n) => match find(decls, declares(n)) {
                Some(i) => before.push((items.last().id, i as usize)),
                None => before,
            },
            None => before,
        }
    }
}

/// The first of `decls` that declares the workspace with the exact name `name`.
pub fn declaration_of(decls: &Vec<WorkspaceDecl>, name: &str) -> (r: Option<usize>)
    ensures
        match r {
            Some(i) => i < decls@.len() && find(decl_models(decls@), declares(name@)) == Some(i as int),
            None => find(decl_models(decls@), declares(name@)) is None,
        },
{
    let ghost models = decl_models(decls@);
    let ghost q = declares(name@);
    let mut i: usize = 0;
    while i < decls.len()
        invariant
            i <= decls@.len(),
            models == decl_models(decls@),
            q == declares(name@),
            find(models, q) == find_from(models, q, i as int),
        decreases decls@.len() - i,
    {
        let here = eq_exact(decls[i].name.as_str(), name);
        assert(here == q(models[i as int]));
        if here {
            return Some(i);
        }
        i = i + 1;
    }
    None
}

impl Layout {
    /// Takes up the options of `config`, and tells which workspaces it declares, each with the
    /// index of the first declaration of its name. Monitors and workspaces have to hear of it.
    pub fn update_config(&mut self, config: &Config) -> (r: Vec<(WorkspaceId, usize)>)
        ensures
            final(self)@ == (LayoutModel { options: config.options, ..old(self)@ }),
            r@ == declared(old(self)@.pool.items, decl_models(config.workspaces@)),
            old(self)@.whole() ==> final(self)@.whole(),
            old(self)@.whole() && old(self)@.orderly() ==> final(self)@.orderly(),
    {
        proof {
            if self@.whole() {
                crate::resting::law_new_options_keep_whole(self@, config.options);
            }
        }
        let ghost items = self@.pool.items;
        let ghost decls = decl_models(config.workspaces@);
        let mut r: Vec<(WorkspaceId, usize)> = Vec::new();
        let mut i: usize = 0;
        while i < self.workspaces.items.len()
            invariant
                i <= self.workspaces.items@.len(),
                items == self@.pool.items,
                *self == *old(self),
                decls == decl_models(config.workspaces@),
                r@ == declared(items.take(i as int), decls),
            decreases self.workspaces.items@.len() - i,
        {
            let w = &self.workspaces.items[i];
            assert(items[i as int] == w@);
            assert(items.take(i + 1).drop_last() =~= items.take(i as int));
            match &w.name {
                Some(name) => match declaration_of(&config.workspaces, name.as_str()) {
                    Some(k) => {
                        r.push((w.id, k));
                    },
                    None => {},
                },
                None => {},
            }
            i = i + 1;
        }
        assert(items.take(i as int) =~= items);
        self.options = config.options;
        r
    }
}

} // verus!
