//! Confirming a pending install: the decisions between the host calls that
//! select each artifact, set each permission and save the install records,
//! with a rollback where any of them fails.

use vstd::prelude::*;

use crate::manager::{
    comma_joined, managed_install_record_for, managed_lookup, names, no_pending_message, ManagedInstallRecord, ManagerState,
    PendingInstall, PreparedInstallItem,
};
use crate::text::str_equal;

verus! {

/// One host call the install asks for next.
#[derive(Debug)]
pub enum InstallAction {
    /// Select the imported artifact with this digest.
    SelectArtifact { digest: String },
    /// Grant (or revoke) a component's permission for a selected activation.
    SetPermission { scope_id: String, instance_id: String, component_id: String, permission: String, grant: bool },
    /// Save the install records the state now holds.
    PersistManaged,
    /// Undo the selections of `subjects` and the policy changes, and report
    /// `message` (with any rollback failures).
    Rollback { message: String, subjects: Vec<String> },
    /// The install is complete: refresh the installed packages.
    Finished,
}

/// What the host call answered.
#[derive(Debug)]
pub enum InstallEvent {
    /// An artifact was selected as this activation.
    Selected { subject: String, version: Option<String>, scope_id: String, instance_id: String },
    /// Selecting failed.
    SelectFailed { error: String },
    /// A permission was set.
    PermissionSet,
    /// Setting a permission failed.
    PermissionFailed { error: String },
    /// The records were saved.
    Persisted,
    /// Saving the records failed.
    PersistFailed { error: String },
}

/// Where a confirmation stands.
#[derive(Debug, Clone, Copy, PartialEq, Eq, Structural)]
pub enum InstallPhase {
    /// Selecting the artifact of this item.
    Selecting { item: usize },
    /// Setting this permission of this item.
    Permitting { item: usize, permission: usize },
    /// Saving the records.
    Persisting,
}

/// A confirmation under way: the install, where it stands, the subjects
/// selected so far (the ones a rollback undoes), the activation of each
/// selected item, and the records before the install.
#[derive(Debug)]
pub struct InstallRun {
    pub pending: PendingInstall,
    pub phase: InstallPhase,
    pub mutated: Vec<String>,
    pub activations: Vec<(String, String)>,
    pub before_managed: Vec<(String, ManagedInstallRecord)>,
}

/// The version an activation reports, `<missing>` where it reports none.
pub open spec fn version_shown(v: Option<String>) -> Seq<char> {
    match v {
        Some(t) => t@,
        None => "<missing>"@,
    }
}

/// "could not select {subject} {version}: {error}"
pub open spec fn select_failure_message(item: PreparedInstallItem, error: Seq<char>) -> Seq<char> {
    "could not select "@ + item.subject@ + " "@ + item.version@ + ": "@ + error
}

/// "selected artifact identity changed after inspection: expected {subject}
/// {version}, got {actual subject} {actual version}"
pub open spec fn identity_changed_message(item: PreparedInstallItem, subject: Seq<char>, version: Seq<char>) -> Seq<char> {
    "selected artifact identity changed after inspection: expected "@ + item.subject@ + " "@ + item.version@ + ", got "@
        + subject + " "@ + version
}

/// "could not {grant|revoke} permission '{permission}' for
/// {subject}:{component}: {error}"
pub open spec fn permission_failure_message(item: PreparedInstallItem, k: int, error: Seq<char>) -> Seq<char> {
    let p = item.permissions@[k];
    "could not "@ + (if p.selected {
        "grant"@
    } else {
        "revoke"@
    }) + " permission '"@ + p.permission@ + "' for "@ + item.subject@ + ":"@ + p.component_id@ + ": "@ + error
}

/// "{name} {version}" of an item.
pub open spec fn item_label(item: PreparedInstallItem) -> Seq<char> {
    item.name@ + " "@ + item.version@
}

/// "Installed {name version, ...} from {origin}. Restart may be required
/// for runtime changes."
pub open spec fn installed_message(p: PendingInstall) -> Seq<char> {
    "Installed "@ + comma_joined(p.items@.map_values(|i: PreparedInstallItem| item_label(i))) + " from "@ + p.origin@
        + ". Restart may be required for runtime changes."@
}

/// The first permission at or after permission `j` of item `i`, in item
/// order: `(items.len(), 0)` where none is left.
pub open spec fn next_permission(items: Seq<PreparedInstallItem>, i: int, j: int) -> (int, int)
    decreases items.len() - i,
{
    if i >= items.len() || i < 0 {
        (items.len() as int, 0)
    } else if 0 <= j < items[i].permissions@.len() {
        (i, j)
    } else {
        next_permission(items, i + 1, 0)
    }
}

/// The subjects of the first `k` items.
pub open spec fn subjects(items: Seq<PreparedInstallItem>, k: int) -> Seq<Seq<char>> {
    items.take(k).map_values(|i: PreparedInstallItem| i.subject@)
}

/// How many items have been selected in phase `p`.
pub open spec fn selected_items(p: InstallPhase, n: int) -> int {
    match p {
        InstallPhase::Selecting { item } => item as int,
        _ => n,
    }
}

impl InstallRun {
    /// The run is consistent: its phase points at an item (and permission)
    /// that exists, the selected items' subjects are those undone by a
    /// rollback, and each selected item has its activation.
    pub open spec fn wf(self) -> bool {
        let items = self.pending.items@;
        let n = items.len() as int;
        let done = selected_items(self.phase, n);
        &&& match self.phase {
            InstallPhase::Selecting { item } => item < n,
            InstallPhase::Permitting { item, permission } => item < n && permission < items[item as int].permissions@.len(),
            InstallPhase::Persisting => true,
        }
        &&& names(self.mutated@) == subjects(items, done)
        &&& self.activations@.len() == done
    }

    /// The event answers the host call the run asked for.
    pub open spec fn expects(self, event: InstallEvent) -> bool {
        match self.phase {
            InstallPhase::Selecting { .. } => event is Selected || event is SelectFailed,
            InstallPhase::Permitting { .. } => event is PermissionSet || event is PermissionFailed,
            InstallPhase::Persisting => event is Persisted || event is PersistFailed,
        }
    }

    /// Whether `event` answers the host call this run asked for.
    pub fn expects_event(&self, event: &InstallEvent) -> (r: bool)
        ensures
            r == self.expects(*event),
    {
        match self.phase {
            InstallPhase::Selecting { .. } => match event {
                InstallEvent::Selected { .. } | InstallEvent::SelectFailed { .. } => true,
                _ => false,
            },
            InstallPhase::Permitting { .. } => match event {
                InstallEvent::PermissionSet | InstallEvent::PermissionFailed { .. } => true,
                _ => false,
            },
            InstallPhase::Persisting => match event {
                InstallEvent::Persisted | InstallEvent::PersistFailed { .. } => true,
                _ => false,
            },
        }
    }
}

proof fn lemma_lookup_first(ms: Seq<(String, ManagedInstallRecord)>, s: Seq<char>, i: int)
    requires
        0 <= i < ms.len(),
        ms[i].0@ == s,
        forall|j: int| 0 <= j < i ==> ms[j].0@ != s,
    ensures
        managed_lookup(ms, s) == Some(ms[i].1),
    decreases i,
{
    if i > 0 {
        lemma_lookup_first(ms.drop_first(), s, i - 1);
    }
}

proof fn lemma_lookup_absent(ms: Seq<(String, ManagedInstallRecord)>, s: Seq<char>)
    requires
        forall|j: int| 0 <= j < ms.len() ==> ms[j].0@ != s,
    ensures
        managed_lookup(ms, s) is None,
    decreases ms.len(),
{
    if ms.len() > 0 {
        lemma_lookup_absent(ms.drop_first(), s);
    }
}

proof fn lemma_lookup_update(ms: Seq<(String, ManagedInstallRecord)>, i: int, x: (String, ManagedInstallRecord), s: Seq<char>)
    requires
        0 <= i < ms.len(),
        ms[i].0@ == x.0@,
        x.0@ != s,
    ensures
        managed_lookup(ms.update(i, x), s) == managed_lookup(ms, s),
    decreases ms.len(),
{
    if i > 0 {
        lemma_lookup_update(ms.drop_first(), i - 1, x, s);
        assert(ms.update(i, x).drop_first() =~= ms.drop_first().update(i - 1, x));
        assert(ms.update(i, x)[0] == ms[0]);
    } else {
        assert(ms.update(i, x).drop_first() =~= ms.drop_first());
        assert(ms.update(i, x)[0] == x);
    }
}

proof fn lemma_lookup_push(ms: Seq<(String, ManagedInstallRecord)>, x: (String, ManagedInstallRecord), s: Seq<char>)
    requires
        forall|j: int| 0 <= j < ms.len() ==> ms[j].0@ != x.0@,
    ensures
        managed_lookup(ms.push(x), s) == if s == x.0@ {
            Some(x.1)
        } else {
            managed_lookup(ms, s)
        },
    decreases ms.len(),
{
    if ms.len() > 0 {
        lemma_lookup_push(ms.drop_first(), x, s);
        assert(ms.push(x).drop_first() =~= ms.drop_first().push(x));
    } else {
        assert(ms.push(x).drop_first() =~= ms);
    }
}

/// Records `record` for `subject`, replacing the record found for it.
fn upsert_record(ms: &mut Vec<(String, ManagedInstallRecord)>, subject: &String, record: ManagedInstallRecord)
    ensures
        forall|s: Seq<char>| #[trigger]
            managed_lookup(final(ms)@, s) == if s == subject@ {
                Some(record)
            } else {
                managed_lookup(old(ms)@, s)
            },
{
    let mut i: usize = 0;
    while i < ms.len()
        invariant
            i <= ms@.len(),
            ms@ == old(ms)@,
            forall|j: int| 0 <= j < i ==> ms@[j].0@ != subject@,
        decreases ms@.len() - i,
    {
        if str_equal(ms[i].0.as_str(), subject.as_str()) {
            let ghost before = ms@;
            let x = (subject.clone(), record);
            let ghost xv = x;
            ms.set(i, x);
            proof {
                assert(ms@ == before.update(i as int, xv));
                assert forall|s: Seq<char>| #[trigger]
                    managed_lookup(ms@, s) == if s == subject@ {
                        Some(record)
                    } else {
                        managed_lookup(before, s)
                    } by {
                    if s == subject@ {
                        assert forall|j: int| 0 <= j < i implies ms@[j].0@ != s by {
                            assert(ms@[j] == before[j]);
                        }
                        lemma_lookup_first(ms@, s, i as int);
                    } else {
                        lemma_lookup_update(before, i as int, xv, s);
                    }
                }
            }
            return;
        }
        i = i + 1;
    }
    let ghost before = ms@;
    let x = (subject.clone(), record);
    let ghost xv = x;
    ms.push(x);
    proof {
        assert forall|s: Seq<char>| #[trigger]
            managed_lookup(ms@, s) == if s == subject@ {
                Some(record)
            } else {
                managed_lookup(before, s)
            } by {
            lemma_lookup_push(before, xv, s);
        }
    }
}

/// The last of the first `p` items with subject `s`, or -1.
pub open spec fn last_item_with(items: Seq<PreparedInstallItem>, s: Seq<char>, p: int) -> int
    decreases p,
{
    if p <= 0 {
        -1
    } else if items[p - 1].subject@ == s {
        p - 1
    } else {
        last_item_with(items, s, p - 1)
    }
}

/// What a record says: its version, its dependencies and whether they are
/// known.
pub open spec fn record_view(r: ManagedInstallRecord) -> (Seq<char>, Seq<Seq<char>>, bool) {
    (r.version@, names(r.dependencies@), r.dependencies_known)
}

/// What the record found for `s` says.
pub open spec fn lookup_view(ms: Seq<(String, ManagedInstallRecord)>, s: Seq<char>) -> Option<(Seq<char>, Seq<Seq<char>>, bool)> {
    match managed_lookup(ms, s) {
        Some(r) => Some(record_view(r)),
        None => None,
    }
}

/// A record written for `item`: its version, and its dependencies where it
/// declares them.
pub open spec fn record_fits(r: Option<(Seq<char>, Seq<Seq<char>>, bool)>, item: PreparedInstallItem) -> bool {
    r matches Some(rec) && rec.0 == item.version@ && (item.dependencies matches Some(ds) ==> rec.1 == names(ds@) && rec.2)
}

/// The records after writing those of the first `p` items: a subject no item
/// has keeps what its record says; any other has the record of its last
/// item.
pub open spec fn records_written(
    before: Seq<(String, ManagedInstallRecord)>,
    after: Seq<(String, ManagedInstallRecord)>,
    items: Seq<PreparedInstallItem>,
    p: int,
) -> bool {
    forall|s: Seq<char>|
        #![trigger lookup_view(after, s)]
        if last_item_with(items, s, p) < 0 {
            lookup_view(after, s) == lookup_view(before, s)
        } else {
            record_fits(lookup_view(after, s), items[last_item_with(items, s, p)])
        }
}

/// `b` is `a` with other install records.
pub open spec fn same_but_records(a: ManagerState, b: ManagerState) -> bool {
    b == ManagerState { managed_installs: b.managed_installs, ..a }
}

proof fn lemma_lookup_extend(ms: Seq<(String, ManagedInstallRecord)>, x: (String, ManagedInstallRecord), s: Seq<char>)
    ensures
        managed_lookup(ms.push(x), s) == match managed_lookup(ms, s) {
            Some(r) => Some(r),
            None => if x.0@ == s {
                Some(x.1)
            } else {
                None
            },
        },
    decreases ms.len(),
{
    if ms.len() > 0 {
        lemma_lookup_extend(ms.drop_first(), x, s);
        assert(ms.push(x).drop_first() =~= ms.drop_first().push(x));
    } else {
        assert(ms.push(x).drop_first() =~= ms);
    }
}

fn copy_record(r: &ManagedInstallRecord) -> (c: ManagedInstallRecord)
    ensures
        record_view(c) == record_view(*r),
{
    ManagedInstallRecord { version: r.version.clone(), dependencies: clone_texts(&r.dependencies), dependencies_known: r.dependencies_known }
}

/// A copy of the records saying what they say.
fn copy_records(ms: &Vec<(String, ManagedInstallRecord)>) -> (c: Vec<(String, ManagedInstallRecord)>)
    ensures
        forall|s: Seq<char>| #[trigger] lookup_view(c@, s) == lookup_view(ms@, s),
{
    let mut out: Vec<(String, ManagedInstallRecord)> = Vec::new();
    let mut k: usize = 0;
    while k < ms.len()
        invariant
            k <= ms@.len(),
            forall|s: Seq<char>| #[trigger] lookup_view(out@, s) == lookup_view(ms@.take(k as int), s),
        decreases ms@.len() - k,
    {
        let ghost before = out@;
        let x = (ms[k].0.clone(), copy_record(&ms[k].1));
        let ghost xv = x;
        out.push(x);
        proof {
            assert(ms@.take(k + 1) =~= ms@.take(k as int).push(ms@[k as int]));
            assert(out@ == before.push(xv));
            assert(xv.0@ == ms@[k as int].0@);
            assert(record_view(xv.1) == record_view(ms@[k as int].1));
            assert forall|s: Seq<char>| #[trigger] lookup_view(out@, s) == lookup_view(ms@.take(k + 1), s) by {
                lemma_lookup_extend(before, xv, s);
                lemma_lookup_extend(ms@.take(k as int), ms@[k as int], s);
                assert(lookup_view(before, s) == lookup_view(ms@.take(k as int), s));
            }
        }
        k = k + 1;
    }
    proof {
        assert(ms@.take(k as int) =~= ms@);
    }
    out
}

/// The records after writing each item's, in item order.
fn written_records(before: &Vec<(String, ManagedInstallRecord)>, items: &Vec<PreparedInstallItem>) -> (after: Vec<
    (String, ManagedInstallRecord),
>)
    ensures
        records_written(before@, after@, items@, items@.len() as int),
{
    let mut ms = copy_records(before);
    let mut k: usize = 0;
    while k < items.len()
        invariant
            k <= items@.len(),
            records_written(before@, ms@, items@, k as int),
        decreases items@.len() - k,
    {
        let item = &items[k];
        let ghost prior = ms@;
        let record = match find_first_record(&ms, item.subject.as_str()) {
            Some(m) => managed_install_record_for(item, Some(&ms[m].1)),
            None => managed_install_record_for(item, None),
        };
        upsert_record(&mut ms, &item.subject, record);
        proof {
            assert forall|s: Seq<char>|
                #![trigger lookup_view(ms@, s)]
                if last_item_with(items@, s, k + 1) < 0 {
                    lookup_view(ms@, s) == lookup_view(before@, s)
                } else {
                    record_fits(lookup_view(ms@, s), items@[last_item_with(items@, s, k + 1)])
                } by {
                if s == items@[k as int].subject@ {
                    assert(last_item_with(items@, s, k + 1) == k);
                } else {
                    assert(last_item_with(items@, s, k + 1) == last_item_with(items@, s, k as int));
                    assert(managed_lookup(prior, s) == managed_lookup(ms@, s));
                    assert(lookup_view(prior, s) == lookup_view(ms@, s));
                }
            }
        }
        k = k + 1;
    }
    ms
}

fn find_first_record(ms: &Vec<(String, ManagedInstallRecord)>, subject: &str) -> (r: Option<usize>)
    ensures
        match r {
            Some(m) => m < ms@.len() && ms@[m as int].0@ == subject@ && forall|j: int| 0 <= j < m ==> (#[trigger] ms@[j]).0@ != subject@,
            None => forall|j: int| 0 <= j < ms@.len() ==> (#[trigger] ms@[j]).0@ != subject@,
        },
{
    let mut i: usize = 0;
    while i < ms.len()
        invariant
            i <= ms@.len(),
            forall|j: int| 0 <= j < i ==> (#[trigger] ms@[j]).0@ != subject@,
        decreases ms@.len() - i,
    {
        if str_equal(ms[i].0.as_str(), subject) {
            return Some(i);
        }
        i = i + 1;
    }
    None
}

/// Where an install goes on from: selecting from an item, or setting
/// permissions from a permission of an item.
#[derive(Debug, Clone, Copy, PartialEq, Eq, Structural)]
pub enum Cursor {
    SelectFrom(usize),
    PermitFrom(usize, usize),
}

/// The permission the cursor leads to (after all selections, the first of
/// all), `(n, 0)` where none is left; `None` while items are left to select.
pub open spec fn permission_of(items: Seq<PreparedInstallItem>, cursor: Cursor) -> Option<(int, int)> {
    match cursor {
        Cursor::SelectFrom(i) => if i < items.len() {
            None
        } else {
            Some(next_permission(items, 0, 0))
        },
        Cursor::PermitFrom(i, j) => Some(next_permission(items, i as int, j as int)),
    }
}

/// Going on from `cursor` asks for the next host call: selecting the
/// artifact of the next item; else setting the next permission, granted as
/// selected, for its item's activation; else, with every item's record
/// written, saving the records.
pub open spec fn went_on(
    items: Seq<PreparedInstallItem>,
    activations: Seq<(String, String)>,
    cursor: Cursor,
    phase: InstallPhase,
    action: InstallAction,
) -> bool {
    match permission_of(items, cursor) {
        None => {
            let i = cursor->SelectFrom_0;
            &&& phase == InstallPhase::Selecting { item: i }
            &&& action matches InstallAction::SelectArtifact { digest }
            &&& digest@ == items[i as int].digest@
        },
        Some((i, j)) => if i < items.len() {
            let p = items[i].permissions@[j];
            &&& phase == InstallPhase::Permitting { item: i as usize, permission: j as usize }
            &&& action matches InstallAction::SetPermission { scope_id, instance_id, component_id, permission, grant }
            &&& scope_id@ == activations[i].0@
            &&& instance_id@ == activations[i].1@
            &&& component_id@ == p.component_id@
            &&& permission@ == p.permission@
            &&& grant == p.selected
        } else {
            phase == InstallPhase::Persisting && action is PersistManaged
        },
    }
}

proof fn lemma_next_permission(items: Seq<PreparedInstallItem>, i: int, j: int)
    requires
        0 <= i <= items.len(),
        0 <= j,
    ensures
        ({
            let (a, b) = next_permission(items, i, j);
            &&& i <= a <= items.len()
            &&& a < items.len() ==> 0 <= b < items[a].permissions@.len()
            &&& a == items.len() ==> b == 0
        }),
    decreases items.len() - i,
{
    if i < items.len() && !(j < items[i].permissions@.len()) {
        lemma_next_permission(items, i + 1, 0);
    }
}

fn clone_texts(v: &Vec<String>) -> (c: Vec<String>)
    ensures
        names(c@) == names(v@),
{
    let mut out: Vec<String> = Vec::new();
    let mut k: usize = 0;
    while k < v.len()
        invariant
            k <= v@.len(),
            out@.len() == k,
            names(out@) == names(v@.take(k as int)),
        decreases v@.len() - k,
    {
        let ghost before = out@;
        let c = v[k].clone();
        out.push(c);
        proof {
            assert(v@.take(k + 1) =~= v@.take(k as int).push(v@[k as int]));
            assert(out@ == before.push(c));
            assert(c@ == v@[k as int]@);
            assert forall|x: int| 0 <= x < out@.len() implies #[trigger] names(out@)[x] == names(v@.take(k + 1))[x] by {
                if x < k {
                    assert(out@[x] == before[x]);
                    assert(names(before)[x] == names(v@.take(k as int))[x]);
                }
            }
            assert(names(out@) =~= names(v@.take(k + 1)));
        }
        k = k + 1;
    }
    proof {
        assert(v@.take(k as int) =~= v@);
    }
    out
}

/// Goes on from `cursor`: asks for the next host call, writing every item's
/// record before saving them.
fn go_on(state: &mut ManagerState, run: &mut InstallRun, cursor: Cursor) -> (action: InstallAction)
    requires
        old(run).activations@.len() == match cursor {
            Cursor::SelectFrom(i) => i as int,
            Cursor::PermitFrom(_, _) => old(run).pending.items@.len() as int,
        },
        match cursor {
            Cursor::SelectFrom(i) => i <= old(run).pending.items@.len(),
            Cursor::PermitFrom(i, _) => i <= old(run).pending.items@.len(),
        },
        names(old(run).mutated@) == subjects(
            old(run).pending.items@,
            old(run).activations@.len() as int,
        ),
    ensures
        final(run).wf(),
        final(run).pending == old(run).pending,
        final(run).mutated == old(run).mutated,
        final(run).activations == old(run).activations,
        went_on(old(run).pending.items@, old(run).activations@, cursor, final(run).phase, action),
        final(run).phase is Persisting ==> {
            &&& same_but_records(*old(state), *final(state))
            &&& final(run).before_managed == old(state).managed_installs
            &&& records_written(
                old(state).managed_installs@,
                final(state).managed_installs@,
                old(run).pending.items@,
                old(run).pending.items@.len() as int,
            )
        },
        !(final(run).phase is Persisting) ==> *final(state) == *old(state) && final(run).before_managed
            == old(run).before_managed,
{
    let n = run.pending.items.len();
    match cursor {
        Cursor::SelectFrom(i) => {
            if i < n {
                run.phase = InstallPhase::Selecting { item: i };
                return InstallAction::SelectArtifact { digest: run.pending.items[i].digest.clone() };
            }
        },
        Cursor::PermitFrom(_, _) => {},
    }
    let (mut i, mut j): (usize, usize) = match cursor {
        Cursor::SelectFrom(_) => (0, 0),
        Cursor::PermitFrom(a, b) => (a, b),
    };
    let ghost start = next_permission(run.pending.items@, i as int, j as int);
    while i < n && j >= run.pending.items[i].permissions.len()
        invariant
            i <= n,
            n == run.pending.items@.len(),
            next_permission(run.pending.items@, i as int, j as int) == start,
        decreases n - i,
    {
        i = i + 1;
        j = 0;
    }
    proof {
        lemma_next_permission(run.pending.items@, i as int, j as int);
    }
    if i < n {
        run.phase = InstallPhase::Permitting { item: i, permission: j };
        let p = &run.pending.items[i].permissions[j];
        let a = &run.activations[i];
        return InstallAction::SetPermission {
            scope_id: a.0.clone(),
            instance_id: a.1.clone(),
            component_id: p.component_id.clone(),
            permission: p.permission.clone(),
            grant: p.selected,
        };
    }
    let mut previous: Vec<(String, ManagedInstallRecord)> = Vec::new();
    std::mem::swap(&mut previous, &mut state.managed_installs);
    state.managed_installs = written_records(&previous, &run.pending.items);
    run.before_managed = previous;
    run.phase = InstallPhase::Persisting;
    InstallAction::PersistManaged
}

/// After going on from `cursor`, the run asks for the next host call, and
/// the state `s1` is `s0`, or, where the records are to be saved next, `s0`
/// with every item's record written (the run keeping the records before).
pub open spec fn continued(
    s0: ManagerState,
    s1: ManagerState,
    items: Seq<PreparedInstallItem>,
    activations: Seq<(String, String)>,
    next: InstallRun,
    cursor: Cursor,
    action: InstallAction,
) -> bool {
    &&& next.wf()
    &&& went_on(items, activations, cursor, next.phase, action)
    &&& next.phase is Persisting ==> {
        &&& same_but_records(s0, s1)
        &&& next.before_managed == s0.managed_installs
        &&& records_written(s0.managed_installs@, s1.managed_installs@, items, items.len() as int)
    }
    &&& !(next.phase is Persisting) ==> s1 == s0
}

/// `b` is `a` with the pending install put back.
pub open spec fn restored(a: ManagerState, b: ManagerState, pending: PendingInstall) -> bool {
    b == ManagerState { pending_install: Some(pending), ..a }
}

/// Starts confirming the pending install: takes it from the state (a failed
/// install puts it back) and asks for the first host call; without a pending
/// install, nothing changes and the error says so.
pub fn start_install(state: &mut ManagerState) -> (r: Result<(InstallRun, InstallAction), String>)
    ensures
        match old(state).pending_install {
            None => r matches Err(e) && e@ == no_pending_message() && *final(state) == *old(state),
            Some(p) => r matches Ok((run, action)) && run.pending == p && run.mutated@.len() == 0 && run.activations@.len() == 0
                && continued(
                ManagerState { pending_install: None, ..*old(state) },
                *final(state),
                p.items@,
                Seq::empty(),
                run,
                Cursor::SelectFrom(0),
                action,
            ),
        },
{
    let mut taken: Option<PendingInstall> = None;
    std::mem::swap(&mut taken, &mut state.pending_install);
    match taken {
        None => Err(String::from_str("there is no pending installation")),
        Some(pending) => {
            let mut run = InstallRun {
                pending,
                phase: InstallPhase::Persisting,
                mutated: Vec::new(),
                activations: Vec::new(),
                before_managed: Vec::new(),
            };
            proof {
                assert(names(run.mutated@) =~= subjects(run.pending.items@, 0));
            }
            let action = go_on(state, &mut run, Cursor::SelectFrom(0));
            Ok((run, action))
        },
    }
}

fn select_failure(subject: &str, version: &str, error: &str) -> (m: String)
    ensures
        m@ == "could not select "@ + subject@ + " "@ + version@ + ": "@ + error@,
{
    let mut m = String::from_str("could not select ");
    m.append(subject);
    m.append(" ");
    m.append(version);
    m.append(": ");
    m.append(error);
    m
}

fn identity_changed(subject: &str, version: &str, actual_subject: &str, actual_version: &str) -> (m: String)
    ensures
        m@ == "selected artifact identity changed after inspection: expected "@ + subject@ + " "@ + version@ + ", got "@
            + actual_subject@ + " "@ + actual_version@,
{
    let mut m = String::from_str("selected artifact identity changed after inspection: expected ");
    m.append(subject);
    m.append(" ");
    m.append(version);
    m.append(", got ");
    m.append(actual_subject);
    m.append(" ");
    m.append(actual_version);
    m
}

fn permission_failure(grant: bool, permission: &str, subject: &str, component: &str, error: &str) -> (m: String)
    ensures
        m@ == "could not "@ + (if grant {
            "grant"@
        } else {
            "revoke"@
        }) + " permission '"@ + permission@ + "' for "@ + subject@ + ":"@ + component@ + ": "@ + error@,
{
    let mut m = String::from_str("could not ");
    m.append(if grant {
        "grant"
    } else {
        "revoke"
    });
    m.append(" permission '");
    m.append(permission);
    m.append("' for ");
    m.append(subject);
    m.append(":");
    m.append(component);
    m.append(": ");
    m.append(error);
    m
}

fn installed_status(pending: &PendingInstall) -> (m: String)
    ensures
        m@ == installed_message(*pending),
{
    let mut labels: Vec<String> = Vec::new();
    let mut k: usize = 0;
    while k < pending.items.len()
        invariant
            k <= pending.items@.len(),
            labels@.len() == k,
            forall|x: int| 0 <= x < k ==> (#[trigger] labels@[x])@ == item_label(pending.items@[x]),
        decreases pending.items@.len() - k,
    {
        let item = &pending.items[k];
        let mut label = item.name.clone();
        label.append(" ");
        label.append(item.version.as_str());
        labels.push(label);
        k = k + 1;
    }
    proof {
        assert(names(labels@) =~= pending.items@.map_values(|i: PreparedInstallItem| item_label(i)));
    }
    let joined = crate::manager::join_comma(&labels);
    let mut m = String::from_str("Installed ");
    m.append(joined.as_str());
    m.append(" from ");
    m.append(pending.origin.as_str());
    m.append(". Restart may be required for runtime changes.");
    m
}

/// What one answered host call leads to. Selecting: an artifact whose
/// subject or version is not the item's rolls back every subject selected,
/// this one included; a failed selection rolls back those before it;
/// otherwise the activation is kept and the install goes on with the next
/// item. Setting a permission: a failure rolls back every subject; otherwise
/// the install goes on with the next permission. Saving: a failure restores
/// the records and rolls back every subject; otherwise the install is
/// finished, the direct URL cleared and the status says what was installed.
/// A rollback puts the pending install back.
pub open spec fn stepped(s0: ManagerState, s1: ManagerState, run: InstallRun, event: InstallEvent, r: (Option<InstallRun>, InstallAction)) -> bool {
    let items = run.pending.items@;
    let n = items.len() as int;
    match event {
        InstallEvent::Selected { subject, version, scope_id, instance_id } => {
            let i = run.phase->Selecting_item as int;
            if subject@ != items[i].subject@ || version_shown(version) != items[i].version@ {
                &&& r.0 is None
                &&& r.1 matches InstallAction::Rollback { message, subjects: undone }
                &&& message@ == identity_changed_message(items[i], subject@, version_shown(version))
                &&& names(undone@) == subjects(items, i).push(subject@)
                &&& restored(s0, s1, run.pending)
            } else {
                &&& r.0 matches Some(next)
                &&& next.pending == run.pending
                &&& next.activations@ == run.activations@.push((scope_id, instance_id))
                &&& continued(s0, s1, items, next.activations@, next, Cursor::SelectFrom((i + 1) as usize), r.1)
            }
        },
        InstallEvent::SelectFailed { error } => {
            let i = run.phase->Selecting_item as int;
            &&& r.0 is None
            &&& r.1 matches InstallAction::Rollback { message, subjects: undone }
            &&& message@ == select_failure_message(items[i], error@)
            &&& names(undone@) == subjects(items, i)
            &&& restored(s0, s1, run.pending)
        },
        InstallEvent::PermissionSet => {
            let i = run.phase->Permitting_item;
            let j = run.phase->Permitting_permission;
            &&& r.0 matches Some(next)
            &&& next.pending == run.pending
            &&& next.activations == run.activations
            &&& continued(s0, s1, items, run.activations@, next, Cursor::PermitFrom(i, (j + 1) as usize), r.1)
        },
        InstallEvent::PermissionFailed { error } => {
            let i = run.phase->Permitting_item as int;
            let j = run.phase->Permitting_permission as int;
            &&& r.0 is None
            &&& r.1 matches InstallAction::Rollback { message, subjects: undone }
            &&& message@ == permission_failure_message(items[i], j, error@)
            &&& names(undone@) == subjects(items, n)
            &&& restored(s0, s1, run.pending)
        },
        InstallEvent::Persisted => {
            &&& r.0 is None
            &&& r.1 is Finished
            &&& s1.status@ == installed_message(run.pending)
            &&& s1.direct_url@.len() == 0
            &&& s1 == ManagerState { status: s1.status, direct_url: s1.direct_url, ..s0 }
        },
        InstallEvent::PersistFailed { error } => {
            &&& r.0 is None
            &&& r.1 matches InstallAction::Rollback { message, subjects: undone }
            &&& message@ == error@
            &&& names(undone@) == subjects(items, n)
            &&& s1 == ManagerState { pending_install: Some(run.pending), managed_installs: run.before_managed, ..s0 }
        },
    }
}

/// Takes one answered host call and asks for the next one, or ends the run.
#[verifier::rlimit(40)]
#[verifier::spinoff_prover]
pub fn install_step(state: &mut ManagerState, run: InstallRun, event: InstallEvent) -> (r: (Option<InstallRun>, InstallAction))
    requires
        run.wf(),
        run.expects(event),
    ensures
        stepped(*old(state), *final(state), run, event, r),
{
    let ghost run0 = run;
    let mut run = run;
    match event {
        InstallEvent::Selected { subject, version, scope_id, instance_id } => {
            let i = match run.phase {
                InstallPhase::Selecting { item } => item,
                _ => 0,
            };
            let actual_version = match &version {
                Some(v) => v.clone(),
                None => String::from_str("<missing>"),
            };
            let ghost before = run.mutated@;
            run.mutated.push(subject.clone());
            proof {
                assert(names(run.mutated@) =~= names(before).push(subject@));
                assert(subjects(run.pending.items@, i + 1) =~= subjects(run.pending.items@, i as int).push(
                    run.pending.items@[i as int].subject@,
                ));
            }
            let matches_item = str_equal(subject.as_str(), run.pending.items[i].subject.as_str()) && str_equal(
                actual_version.as_str(),
                run.pending.items[i].version.as_str(),
            );
            if !matches_item {
                let message = identity_changed(
                    run.pending.items[i].subject.as_str(),
                    run.pending.items[i].version.as_str(),
                    subject.as_str(),
                    actual_version.as_str(),
                );
                state.pending_install = Some(run.pending);
                return (None, InstallAction::Rollback { message, subjects: run.mutated });
            }
            run.activations.push((scope_id, instance_id));
            assert(i < run.pending.items.len());
            let action = go_on(state, &mut run, Cursor::SelectFrom(i + 1));
            (Some(run), action)
        },
        InstallEvent::SelectFailed { error } => {
            let i = match run.phase {
                InstallPhase::Selecting { item } => item,
                _ => 0,
            };
            let message = select_failure(
                run.pending.items[i].subject.as_str(),
                run.pending.items[i].version.as_str(),
                error.as_str(),
            );
            state.pending_install = Some(run.pending);
            (None, InstallAction::Rollback { message, subjects: run.mutated })
        },
        InstallEvent::PermissionSet => {
            let (i, j) = match run.phase {
                InstallPhase::Permitting { item, permission } => (item, permission),
                _ => (0, 0),
            };
            assert(i < run.pending.items.len() && j < run.pending.items@[i as int].permissions.len());
            let action = go_on(state, &mut run, Cursor::PermitFrom(i, j + 1));
            (Some(run), action)
        },
        InstallEvent::PermissionFailed { error } => {
            let (i, j) = match run.phase {
                InstallPhase::Permitting { item, permission } => (item, permission),
                _ => (0, 0),
            };
            let item = &run.pending.items[i];
            let p = &item.permissions[j];
            let message = permission_failure(p.selected, p.permission.as_str(), item.subject.as_str(), p.component_id.as_str(), error.as_str());
            state.pending_install = Some(run.pending);
            (None, InstallAction::Rollback { message, subjects: run.mutated })
        },
        InstallEvent::Persisted => {
            state.status = installed_status(&run.pending);
            state.direct_url = String::new();
            (None, InstallAction::Finished)
        },
        InstallEvent::PersistFailed { error } => {
            state.managed_installs = run.before_managed;
            state.pending_install = Some(run.pending);
            (None, InstallAction::Rollback { message: error, subjects: run.mutated })
        },
    }
}

} // verus!
