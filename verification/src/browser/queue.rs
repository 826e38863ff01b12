//! The download queue: shows keyed by container id, in the order they were
//! queued, each id once; bulk adding and removing from a show list, and
//! what a download run leaves of the queue; the choices of a show's detail
//! screen.
use vstd::prelude::*;
use crate::models::CatalogShow;
use crate::text::{dec_string, fmt_dec, is_prefix, owned, push_str, str_eq, str_starts_with};

verus! {

/// `id` is queued in `q`.
pub open spec fn q_has(q: Seq<(i64, CatalogShow)>, id: i64) -> bool {
    exists|i: int| 0 <= i < q.len() && (#[trigger] q[i]).0 == id
}

/// No id is queued twice.
pub open spec fn ids_distinct(q: Seq<(i64, CatalogShow)>) -> bool {
    forall|i: int, j: int| 0 <= i < j < q.len() ==> (#[trigger] q[i]).0 != (#[trigger] q[j]).0
}

/// The queue after adding the shows in list order: a show whose id is
/// queued (before, or earlier in the list) is passed over, any other is
/// appended under its container id.
pub open spec fn spec_add_all(q: Seq<(i64, CatalogShow)>, shows: Seq<CatalogShow>) -> Seq<(i64, CatalogShow)>
    decreases shows.len(),
{
    if shows.len() == 0 {
        q
    } else {
        let q1 = spec_add_all(q, shows.drop_last());
        let s = shows.last();
        if q_has(q1, s.container_id) { q1 } else { q1.push((s.container_id, s)) }
    }
}

/// `id` is the container id of one of the shows.
pub open spec fn in_list(shows: Seq<CatalogShow>, id: i64) -> bool {
    exists|i: int| 0 <= i < shows.len() && (#[trigger] shows[i]).container_id == id
}

/// The queue without the shows of the list, order kept.
pub open spec fn spec_remove_all(q: Seq<(i64, CatalogShow)>, shows: Seq<CatalogShow>) -> Seq<(i64, CatalogShow)> {
    q.filter(|e: (i64, CatalogShow)| !in_list(shows, e.0))
}

/// Download queue keyed by container id, in queueing order.
pub struct ShowQueue {
    entries: Vec<(i64, CatalogShow)>,
}

impl ShowQueue {
    pub closed spec fn view(&self) -> Seq<(i64, CatalogShow)> {
        self.entries@
    }

    /// Each id is queued once.
    pub open spec fn wf(&self) -> bool {
        ids_distinct(self.view())
    }

    pub fn new() -> (r: Self)
        ensures
            r.view().len() == 0,
            r.wf(),
    {
        ShowQueue { entries: Vec::new() }
    }

    pub fn len(&self) -> (r: usize)
        ensures
            r == self.view().len(),
    {
        self.entries.len()
    }

    /// The queued (id, show) pairs in queueing order.
    pub fn entries(&self) -> (r: &Vec<(i64, CatalogShow)>)
        ensures
            r@ == self.view(),
    {
        &self.entries
    }

    /// Whether `id` is queued.
    pub fn contains(&self, id: i64) -> (r: bool)
        ensures
            r == q_has(self.view(), id),
    {
        let mut i: usize = 0;
        while i < self.entries.len()
            invariant
                i <= self.entries@.len(),
                forall|j: int| 0 <= j < i ==> (#[trigger] self.entries@[j]).0 != id,
            decreases self.entries@.len() - i,
        {
            if self.entries[i].0 == id {
                proof {
                    assert(self.entries@[i as int].0 == id);
                }
                return true;
            }
            i = i + 1;
        }
        false
    }

    /// Queue a show under its container id, after the others; a show
    /// already queued is left where it is. True when it was added.
    pub fn add(&mut self, show: &CatalogShow) -> (r: bool)
        requires
            old(self).wf(),
        ensures
            final(self).wf(),
            r == !q_has(old(self).view(), show.container_id),
            r ==> final(self).view() == old(self).view().push((show.container_id, *show)),
            !r ==> final(self).view() == old(self).view(),
    {
        if self.contains(show.container_id) {
            return false;
        }
        let ghost before = self.entries@;
        self.entries.push((show.container_id, show.duplicate()));
        proof {
            assert forall|i: int, j: int| 0 <= i < j < self.entries@.len() implies (#[trigger] self.entries@[i]).0 != (#[trigger] self.entries@[j]).0 by {
                if j == before.len() {
                    assert(self.entries@[i] == before[i]);
                } else {
                    assert(self.entries@[i] == before[i] && self.entries@[j] == before[j]);
                }
            }
        }
        true
    }

    /// Empty the queue.
    pub fn clear(&mut self)
        ensures
            final(self).view().len() == 0,
            final(self).wf(),
    {
        self.entries = Vec::new();
    }
}

/// Add all shows of a list (in its order, as shown) that are not queued
/// yet. Returns how many were added.
pub fn queue_add_all(queue: &mut ShowQueue, shows: &Vec<CatalogShow>) -> (added: usize)
    requires
        old(queue).wf(),
    ensures
        final(queue).wf(),
        final(queue).view() == spec_add_all(old(queue).view(), shows@),
        added == final(queue).view().len() - old(queue).view().len(),
{
    let ghost q0 = queue.view();
    let mut added: usize = 0;
    let mut i: usize = 0;
    while i < shows.len()
        invariant
            i <= shows@.len(),
            queue.wf(),
            queue.view() == spec_add_all(q0, shows@.take(i as int)),
            added == queue.view().len() - q0.len(),
            queue.view().len() >= q0.len(),
            added <= i,
        decreases shows@.len() - i,
    {
        proof {
            assert(shows@.take(i + 1).drop_last() =~= shows@.take(i as int));
            assert(shows@.take(i + 1).last() == shows@[i as int]);
        }
        if queue.add(&shows[i]) {
            added = added + 1;
        }
        i = i + 1;
    }
    proof {
        assert(shows@.take(shows@.len() as int) =~= shows@);
    }
    added
}

/// Whether `id` is the container id of a show of the list.
fn listed(shows: &Vec<CatalogShow>, id: i64) -> (r: bool)
    ensures
        r == in_list(shows@, id),
{
    let mut i: usize = 0;
    while i < shows.len()
        invariant
            i <= shows@.len(),
            forall|j: int| 0 <= j < i ==> (#[trigger] shows@[j]).container_id != id,
        decreases shows@.len() - i,
    {
        if shows[i].container_id == id {
            proof {
                assert(shows@[i as int].container_id == id);
            }
            return true;
        }
        i = i + 1;
    }
    false
}

/// Remove all shows of a list from the queue; the others stay in order.
/// Returns how many were removed.
pub fn queue_remove_all(queue: &mut ShowQueue, shows: &Vec<CatalogShow>) -> (removed: usize)
    requires
        old(queue).wf(),
    ensures
        final(queue).wf(),
        final(queue).view() == spec_remove_all(old(queue).view(), shows@),
        removed == old(queue).view().len() - final(queue).view().len(),
{
    let ghost q0 = queue.view();
    let ghost f = |e: (i64, CatalogShow)| !in_list(shows@, e.0);
    let mut kept: Vec<(i64, CatalogShow)> = Vec::new();
    let mut i: usize = 0;
    while i < queue.entries.len()
        invariant
            q0 == queue.entries@,
            i <= q0.len(),
            kept@ == q0.take(i as int).filter(f),
            f == (|e: (i64, CatalogShow)| !in_list(shows@, e.0)),
            ids_distinct(q0),
            ids_distinct(kept@),
            forall|k: int| 0 <= k < kept@.len() ==> q_has(q0.take(i as int), (#[trigger] kept@[k]).0),
        decreases q0.len() - i,
    {
        proof {
            assert(q0.take(i + 1) =~= q0.take(i as int).push(q0[i as int]));
            q0.take(i as int).lemma_filter_push(q0[i as int], f);
        }
        let ghost k0 = kept@;
        if !listed(shows, queue.entries[i].0) {
            kept.push((queue.entries[i].0, queue.entries[i].1.duplicate()));
            proof {
                assert forall|k: int| 0 <= k < k0.len() implies (#[trigger] k0[k]).0 != q0[i as int].0 by {
                    let t = q0.take(i as int);
                    let j = choose|j: int| 0 <= j < t.len() && (#[trigger] t[j]).0 == k0[k].0;
                    assert(t[j] == q0[j]);
                }
                assert forall|a: int, b: int| 0 <= a < b < kept@.len() implies (#[trigger] kept@[a]).0 != (#[trigger] kept@[b]).0 by {
                    if b == k0.len() {
                        assert(kept@[a] == k0[a]);
                    } else {
                        assert(kept@[a] == k0[a] && kept@[b] == k0[b]);
                    }
                }
            }
        }
        proof {
            let t1 = q0.take(i + 1);
            assert forall|k: int| 0 <= k < kept@.len() implies q_has(t1, (#[trigger] kept@[k]).0) by {
                if k < k0.len() {
                    let t = q0.take(i as int);
                    assert(kept@[k] == k0[k]);
                    let j = choose|j: int| 0 <= j < t.len() && (#[trigger] t[j]).0 == k0[k].0;
                    assert(t1[j] == t[j]);
                } else {
                    assert(t1[i as int] == q0[i as int]);
                }
            }
        }
        i = i + 1;
    }
    proof {
        assert(q0.take(q0.len() as int) =~= q0);
        q0.lemma_filter_len(f);
    }
    let n = queue.entries.len();
    let removed = n - kept.len();
    queue.entries = kept;
    removed
}

/// What became of one queued show in a download run.
pub enum ShowOutcome {
    /// Passed over (no detail, no downloadable tracks).
    Skipped,
    /// The user cancelled: the run stops here.
    Cancelled,
    /// Downloaded, with this many tracks that failed.
    Completed { failed_count: usize },
}

/// A download without a failed track.
pub open spec fn clean(o: ShowOutcome) -> bool {
    match o {
        ShowOutcome::Completed { failed_count } => failed_count == 0,
        _ => false,
    }
}

/// Every outcome is a download without a failed track.
pub open spec fn all_clean(outcomes: Seq<ShowOutcome>) -> bool {
    forall|i: int| 0 <= i < outcomes.len() ==> clean(#[trigger] outcomes[i])
}

/// After a download run over the queue, with one outcome per show taken
/// (the run stops after a cancel): the queue is cleared exactly when the
/// run could start (`setup_ok`: codec chosen, output directory and format
/// usable) and every show completed with no failed track. Returns whether
/// it was cleared; otherwise the queue is unchanged.
pub fn queue_after_downloads(queue: &mut ShowQueue, outcomes: &Vec<ShowOutcome>, setup_ok: bool) -> (r: bool)
    requires
        old(queue).wf(),
        outcomes@.len() <= old(queue).view().len(),
    ensures
        final(queue).wf(),
        r == (setup_ok && outcomes@.len() == old(queue).view().len() && all_clean(outcomes@)),
        r ==> final(queue).view().len() == 0,
        !r ==> final(queue).view() == old(queue).view(),
{
    if !setup_ok {
        return false;
    }
    let total = queue.len();
    let ghost q0 = queue.view();
    let mut downloaded: usize = 0;
    let mut skipped: usize = 0;
    let mut any_failures = false;
    let mut i: usize = 0;
    while i < outcomes.len()
        invariant
            i <= outcomes@.len(),
            outcomes@.len() <= total,
            total == q0.len(),
            queue.view() == q0,
            queue.wf(),
            downloaded + skipped <= i,
            (downloaded == i && skipped == 0 && !any_failures) == all_clean(outcomes@.take(i as int)),
        decreases outcomes@.len() - i,
    {
        proof {
            assert(outcomes@.take(i + 1) =~= outcomes@.take(i as int).push(outcomes@[i as int]));
            assert forall|k: int| 0 <= k < i implies outcomes@.take(i + 1)[k] == outcomes@.take(i as int)[k] by {}
        }
        match &outcomes[i] {
            ShowOutcome::Skipped => {
                skipped = skipped + 1;
            },
            ShowOutcome::Cancelled => {
                proof {
                    assert(!clean(outcomes@[i as int]));
                }
                return false;
            },
            ShowOutcome::Completed { failed_count } => {
                downloaded = downloaded + 1;
                if *failed_count > 0 {
                    any_failures = true;
                }
            },
        }
        proof {
            let t = outcomes@.take(i + 1);
            if all_clean(t) {
                assert(t[i as int] == outcomes@[i as int]);
            }
        }
        i = i + 1;
    }
    proof {
        assert(outcomes@.take(outcomes@.len() as int) =~= outcomes@);
    }
    if skipped == 0 && downloaded == total && !any_failures {
        queue.clear();
        true
    } else {
        false
    }
}

impl ShowQueue {
    /// Take `id` out of the queue; the others keep their order. True when
    /// it was queued.
    pub fn remove(&mut self, id: i64) -> (r: bool)
        requires
            old(self).wf(),
        ensures
            final(self).wf(),
            r == q_has(old(self).view(), id),
            final(self).view() == old(self).view().filter(|e: (i64, CatalogShow)| e.0 != id),
    {
        let ghost q0 = self.entries@;
        let ghost f = |e: (i64, CatalogShow)| e.0 != id;
        let mut kept: Vec<(i64, CatalogShow)> = Vec::new();
        let mut found = false;
        let mut i: usize = 0;
        while i < self.entries.len()
            invariant
                q0 == self.entries@,
                i <= q0.len(),
                kept@ == q0.take(i as int).filter(f),
                f == (|e: (i64, CatalogShow)| e.0 != id),
                found == q_has(q0.take(i as int), id),
                ids_distinct(q0),
                ids_distinct(kept@),
                forall|k: int| 0 <= k < kept@.len() ==> q_has(q0.take(i as int), (#[trigger] kept@[k]).0),
            decreases q0.len() - i,
        {
            let ghost t0 = q0.take(i as int);
            let ghost t1 = q0.take(i + 1);
            proof {
                assert(t1 =~= t0.push(q0[i as int]));
                t0.lemma_filter_push(q0[i as int], f);
                assert(q_has(t1, id) <==> (q_has(t0, id) || q0[i as int].0 == id)) by {
                    if q_has(t1, id) {
                        let j = choose|j: int| 0 <= j < t1.len() && (#[trigger] t1[j]).0 == id;
                        if j < i {
                            assert(t0[j] == t1[j]);
                        }
                    }
                    if q_has(t0, id) {
                        let j = choose|j: int| 0 <= j < t0.len() && (#[trigger] t0[j]).0 == id;
                        assert(t1[j] == t0[j]);
                    }
                    if q0[i as int].0 == id {
                        assert(t1[i as int] == q0[i as int]);
                    }
                }
            }
            let ghost k0 = kept@;
            if self.entries[i].0 == id {
                found = true;
            } else {
                kept.push((self.entries[i].0, self.entries[i].1.duplicate()));
                proof {
                    assert forall|k: int| 0 <= k < k0.len() implies (#[trigger] k0[k]).0 != q0[i as int].0 by {
                        let j = choose|j: int| 0 <= j < t0.len() && (#[trigger] t0[j]).0 == k0[k].0;
                        assert(t0[j] == q0[j]);
                    }
                    assert forall|a: int, b: int| 0 <= a < b < kept@.len() implies (#[trigger] kept@[a]).0 != (#[trigger] kept@[b]).0 by {
                        if b == k0.len() {
                            assert(kept@[a] == k0[a]);
                        } else {
                            assert(kept@[a] == k0[a] && kept@[b] == k0[b]);
                        }
                    }
                }
            }
            proof {
                assert forall|k: int| 0 <= k < kept@.len() implies q_has(t1, (#[trigger] kept@[k]).0) by {
                    if k < k0.len() {
                        assert(kept@[k] == k0[k]);
                        let j = choose|j: int| 0 <= j < t0.len() && (#[trigger] t0[j]).0 == k0[k].0;
                        assert(t1[j] == t0[j]);
                    } else {
                        assert(t1[i as int] == q0[i as int]);
                    }
                }
            }
            i = i + 1;
        }
        proof {
            assert(q0.take(q0.len() as int) =~= q0);
        }
        self.entries = kept;
        found
    }
}

/// "`prefix` (n show)" or "`prefix` (n shows)".
pub open spec fn spec_count_label(prefix: Seq<char>, n: nat) -> Seq<char> {
    prefix + " ("@ + fmt_dec(n) + " show"@ + (if n != 1 { "s"@ } else { Seq::<char>::empty() }) + ")"@
}

fn count_label(prefix: &str, n: u64) -> (r: String)
    ensures
        r@ == spec_count_label(prefix@, n as nat),
{
    let mut r = owned(prefix);
    push_str(&mut r, " (");
    let d = dec_string(n);
    push_str(&mut r, d.as_str());
    push_str(&mut r, " show");
    if n != 1 {
        push_str(&mut r, "s");
    }
    push_str(&mut r, ")");
    proof {
        reveal_strlit("s");
    }
    r
}

/// The choices of a show's detail screen, given whether the show is
/// queued and how many shows are: add or remove it; download it now; and
/// download the queue (with it added first when it is not queued and the
/// queue is not empty).
pub open spec fn spec_detail_choices(in_queue: bool, n: nat) -> Seq<Seq<char>> {
    let base = seq![if in_queue { "Remove from queue"@ } else { "Add to queue"@ }, "Download now"@];
    if in_queue {
        base.push(spec_count_label("Download queue"@, n))
    } else if n > 0 {
        base.push(spec_count_label("Add + download queue"@, n + 1))
    } else {
        base
    }
}

pub open spec fn text_views(v: Seq<String>) -> Seq<Seq<char>> {
    Seq::new(v.len(), |i: int| v[i]@)
}

/// The choices of the detail screen of the show `container_id`.
pub fn show_detail_choices(queue: &ShowQueue, container_id: i64) -> (r: Vec<String>)
    requires
        queue.view().len() < u64::MAX,
    ensures
        text_views(r@) == spec_detail_choices(q_has(queue.view(), container_id), queue.view().len()),
{
    let in_queue = queue.contains(container_id);
    let n = queue.len();
    let mut r: Vec<String> = Vec::new();
    if in_queue {
        r.push(owned("Remove from queue"));
    } else {
        r.push(owned("Add to queue"));
    }
    r.push(owned("Download now"));
    if in_queue {
        r.push(count_label("Download queue", n as u64));
    } else if n > 0 {
        r.push(count_label("Add + download queue", (n as u64) + 1));
    }
    proof {
        assert(text_views(r@) =~= spec_detail_choices(in_queue, n as nat));
    }
    r
}

/// What a choice of the detail screen asks for.
#[derive(Debug, Clone, Copy, PartialEq, Eq, Structural)]
pub enum DetailAction {
    AddToQueue,
    RemoveFromQueue,
    DownloadNow,
    /// Download the queue, then leave the screen.
    DownloadQueue,
    /// Queue the show, download the queue, then leave the screen.
    AddAndDownloadQueue,
    /// Not a choice of the screen: nothing happens.
    Nothing,
}

pub open spec fn spec_detail_action(choice: Seq<char>) -> DetailAction {
    if choice == "Add to queue"@ {
        DetailAction::AddToQueue
    } else if choice == "Remove from queue"@ {
        DetailAction::RemoveFromQueue
    } else if choice == "Download now"@ {
        DetailAction::DownloadNow
    } else if is_prefix("Download queue"@, choice) {
        DetailAction::DownloadQueue
    } else if is_prefix("Add + download queue"@, choice) {
        DetailAction::AddAndDownloadQueue
    } else {
        DetailAction::Nothing
    }
}

/// The action of a chosen line of the detail screen.
pub fn show_detail_action(choice: &str) -> (r: DetailAction)
    ensures
        r == spec_detail_action(choice@),
{
    if str_eq(choice, "Add to queue") {
        DetailAction::AddToQueue
    } else if str_eq(choice, "Remove from queue") {
        DetailAction::RemoveFromQueue
    } else if str_eq(choice, "Download now") {
        DetailAction::DownloadNow
    } else if str_starts_with(choice, "Download queue") {
        DetailAction::DownloadQueue
    } else if str_starts_with(choice, "Add + download queue") {
        DetailAction::AddAndDownloadQueue
    } else {
        DetailAction::Nothing
    }
}

} // verus!
