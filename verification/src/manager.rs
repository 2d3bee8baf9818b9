//! The backend aggregator and router: fans fetch results together with a
//! partial-failure policy, orders the merged set deterministically, and
//! routes creations and mutations to the right backend.
use vstd::prelude::*;
use crate::date::Date;
use crate::error::TasukiError;
use crate::localfile::LocalFileBackend;
use crate::model::{BackendSource, Task};
use crate::obsidian::ObsidianBackend;
use crate::text::{chars_string, find_from, push_all, str_chars, subvec};

verus! {

broadcast use vstd::seq_lib::group_to_multiset_ensures, vstd::seq_lib::to_multiset_build, vstd::seq_lib::to_multiset_insert;

/// One configured backend: a closed union dispatched by matching.
pub enum BackendInstance {
    LocalFile(LocalFileBackend),
    Obsidian(ObsidianBackend),
}

impl BackendInstance {
    pub open spec fn spec_source(&self) -> BackendSource {
        match self {
            BackendInstance::LocalFile(_) => BackendSource::LocalFile,
            BackendInstance::Obsidian(_) => BackendSource::Obsidian,
        }
    }

    pub fn source(&self) -> (r: BackendSource)
        ensures
            r == self.spec_source(),
    {
        match self {
            BackendInstance::LocalFile(_) => BackendSource::LocalFile,
            BackendInstance::Obsidian(_) => BackendSource::Obsidian,
        }
    }

    /// The backend's display name, as its fetch errors report it.
    pub open spec fn spec_name(&self) -> Seq<char> {
        match self {
            BackendInstance::LocalFile(_) => "local"@,
            BackendInstance::Obsidian(_) => "Obsidian"@,
        }
    }

    pub fn name(&self) -> (r: &'static str)
        ensures
            r@ == self.spec_name(),
    {
        match self {
            BackendInstance::LocalFile(_) => "local",
            BackendInstance::Obsidian(_) => "Obsidian",
        }
    }
}

/// The ordered collection of configured backends; stateless across
/// calls.
pub struct BackendManager {
    pub backends: Vec<BackendInstance>,
}

/// The identifier prefix: everything before the first `:`, or the whole
/// identifier if it has none.
pub open spec fn id_prefix(id: Seq<char>) -> Seq<char> {
    match find_from(id, seq![':'], 0) {
        Some(i) => id.take(i),
        None => id,
    }
}

/// The tasks of the successful results, concatenated in backend order.
pub open spec fn oks_concat(rs: Seq<(String, Result<Vec<Task>, TasukiError>)>) -> Seq<Task>
    decreases rs.len(),
{
    if rs.len() == 0 {
        Seq::empty()
    } else {
        oks_concat(rs.drop_last()) + (match rs.last().1 {
            Ok(ts) => ts@,
            Err(_) => Seq::empty(),
        })
    }
}

/// Whether any backend's fetch succeeded, with or without tasks.
pub open spec fn has_ok(rs: Seq<(String, Result<Vec<Task>, TasukiError>)>) -> bool {
    exists|k: int| 0 <= k < rs.len() && (#[trigger] rs[k]).1 is Ok
}

pub proof fn lemma_has_ok_push(
    rs: Seq<(String, Result<Vec<Task>, TasukiError>)>,
    x: (String, Result<Vec<Task>, TasukiError>),
)
    ensures
        has_ok(rs.push(x)) == (has_ok(rs) || x.1 is Ok),
{
    if has_ok(rs) {
        let k = choose|k: int| 0 <= k < rs.len() && (#[trigger] rs[k]).1 is Ok;
        assert(rs.push(x)[k] == rs[k]);
        assert(has_ok(rs.push(x)));
    }
    if x.1 is Ok {
        assert(rs.push(x)[rs.len() as int] == x);
        assert(has_ok(rs.push(x)));
    }
    if has_ok(rs.push(x)) {
        let k = choose|k: int| 0 <= k < rs.push(x).len() && (#[trigger] rs.push(x)[k]).1 is Ok;
        if k < rs.len() {
            assert(rs[k] == rs.push(x)[k]);
            assert(has_ok(rs));
        } else {
            assert(rs.push(x)[k] == x);
        }
    }
}

/// The first failed backend, with its name and error.
pub open spec fn first_err(rs: Seq<(String, Result<Vec<Task>, TasukiError>)>) -> Option<
    (String, TasukiError),
>
    decreases rs.len(),
{
    if rs.len() == 0 {
        None
    } else {
        match rs[0].1 {
            Err(e) => Some((rs[0].0, e)),
            Ok(_) => first_err(rs.drop_first()),
        }
    }
}

pub proof fn lemma_first_err_push(
    rs: Seq<(String, Result<Vec<Task>, TasukiError>)>,
    x: (String, Result<Vec<Task>, TasukiError>),
)
    ensures
        first_err(rs.push(x)) == (if first_err(rs) is Some {
            first_err(rs)
        } else {
            match x.1 {
                Err(e) => Some((x.0, e)),
                Ok(_) => None,
            }
        }),
    decreases rs.len(),
{
    if rs.len() == 0 {
        assert(rs.push(x)[0] == x);
        assert(rs.push(x).drop_first() =~= Seq::<(String, Result<Vec<Task>, TasukiError>)>::empty());
        assert(first_err(rs) is None);
        assert(first_err(rs.push(x).drop_first()) is None);
    } else {
        assert(rs.push(x)[0] == rs[0]);
        assert(rs.push(x).drop_first() =~= rs.drop_first().push(x));
        lemma_first_err_push(rs.drop_first(), x);
    }
}

impl BackendManager {
    pub fn new(backends: Vec<BackendInstance>) -> (r: Self)
        ensures
            r.backends@ == backends@,
    {
        BackendManager { backends }
    }

    pub fn is_empty(&self) -> (r: bool)
        ensures
            r == (self.backends@.len() == 0),
    {
        self.backends.len() == 0
    }

    /// Merges per-backend fetch results with the partial-failure policy:
    /// a failed backend is dropped whenever any backend succeeded, even
    /// with zero tasks, and an empty backend list yields an empty result.
    /// Only when every backend failed does the call fail, surfacing the
    /// first backend's error, named and rendered.
    pub fn merge_results(&self, results: Vec<(String, Result<Vec<Task>, TasukiError>)>) -> (r:
        Result<Vec<Task>, TasukiError>)
        ensures
            r is Ok <==> (results@.len() == 0 || has_ok(results@)),
            r matches Ok(ts) ==> ts@ == oks_concat(results@),
            r matches Err(e) ==> (first_err(results@) matches Some(fe) && e matches
                TasukiError::Backend { backend, message } && backend@ == fe.0@ && message@
                == fe.1.spec_render()),
    {
        let mut tasks: Vec<Task> = Vec::new();
        let mut err_name: Option<String> = None;
        let mut err_msg: Option<String> = None;
        let mut ok_seen = false;
        let mut rest = results;
        let ghost orig = rest@;
        let n0 = rest.len();
        let mut taken: usize = 0;
        proof {
            assert(orig.take(0) =~= Seq::<(String, Result<Vec<Task>, TasukiError>)>::empty());
            assert(rest@ =~= orig.skip(0));
        }
        while rest.len() > 0
            invariant
                taken <= orig.len(),
                orig.len() == n0,
                taken + rest@.len() == orig.len(),
                rest@ == orig.skip(taken as int),
                tasks@ == oks_concat(orig.take(taken as int)),
                ok_seen == has_ok(orig.take(taken as int)),
                match first_err(orig.take(taken as int)) {
                    Some(fe) => {
                        &&& (err_name matches Some(nm) && nm@ == fe.0@)
                        &&& (err_msg matches Some(ms) && ms@ == fe.1.spec_render())
                    },
                    None => err_name is None,
                },
            decreases rest@.len(),
        {
            let (name, result) = rest.remove(0);
            proof {
                assert((name, result) == orig[taken as int]);
                assert(rest@ =~= orig.skip(taken + 1));
                assert(orig.take(taken + 1).drop_last() =~= orig.take(taken as int));
                assert(orig.take(taken + 1).last() == orig[taken as int]);
                lemma_first_err_push(orig.take(taken as int), orig[taken as int]);
                assert(orig.take(taken as int).push(orig[taken as int]) =~= orig.take(taken + 1));
                lemma_has_ok_push(orig.take(taken as int), orig[taken as int]);
            }
            match result {
                Ok(ts) => {
                    ok_seen = true;
                    let mut ts2 = ts;
                    let ghost tso = ts2@;
                    let ghost tasks0 = tasks@;
                    let tn = ts2.len();
                    let mut moved: usize = 0;
                    while ts2.len() > 0
                        invariant
                            tso.len() == tn,
                            moved + ts2@.len() == tso.len(),
                            ts2@ == tso.skip(moved as int),
                            tasks@ == tasks0 + tso.take(moved as int),
                        decreases ts2@.len(),
                    {
                        let t = ts2.remove(0);
                        proof {
                            assert(t == tso[moved as int]);
                            assert(ts2@ =~= tso.skip(moved + 1));
                            assert(tasks0 + tso.take(moved as int) + seq![t] =~= tasks0 + tso.take(
                                moved + 1,
                            ));
                        }
                        tasks.push(t);
                        moved += 1;
                    }
                    proof {
                        assert(tso.take(tso.len() as int) =~= tso);
                    }
                },
                Err(e) => {
                    if matches!(err_name, Option::None) {
                        let msg = e.render();
                        err_name = Some(name);
                        err_msg = Some(msg);
                    }
                },
            }
            taken += 1;
        }
        proof {
            assert(orig.take(taken as int) =~= orig);
        }
        if !ok_seen {
            match (err_name, err_msg) {
                (Some(nm), Some(ms)) => {
                    return Err(TasukiError::Backend { backend: nm, message: ms });
                },
                _ => {
                    proof {
                        if orig.len() > 0 {
                            assert(orig[0].1 is Ok);
                            assert(has_ok(orig));
                        }
                    }
                    return Ok(tasks);
                },
            }
        }
        Ok(tasks)
    }

    /// Routes a mutation: the first backend whose source name equals the
    /// identifier's prefix before the first `:`.
    pub fn route_for_id(&self, id: &str) -> (r: Result<usize, TasukiError>)
        ensures
            r is Ok <==> (exists|j: int|
                0 <= j < self.backends@.len() && (#[trigger] self.backends@[j].spec_source()).spec_name()
                    == id_prefix(id@)),
            r matches Ok(i) ==> i < self.backends@.len()
                && self.backends@[i as int].spec_source().spec_name() == id_prefix(id@) && (forall|
                j: int,
            |
                0 <= j < i ==> (#[trigger] self.backends@[j].spec_source()).spec_name() != id_prefix(
                    id@,
                )),
            r matches Err(e) ==> e matches TasukiError::Parse(m) && m@
                == "No backend found for task ID: "@ + id@,
    {
        let cs = str_chars(id);
        let colon: Vec<char> = vec![':'];
        proof {
            assert(colon@ =~= seq![':']);
        }
        let prefix: Vec<char> = match crate::text::find_sub(cs.as_slice(), colon.as_slice()) {
            Some(i) => {
                proof {
                    crate::text::lemma_find_in_bounds(id@, seq![':'], 0);
                }
                let p = subvec(cs.as_slice(), 0, i);
                proof {
                    assert(p@ =~= id@.take(i as int));
                }
                p
            },
            None => cs,
        };
        proof {
            assert(prefix@ == id_prefix(id@));
        }
        let mut i: usize = 0;
        while i < self.backends.len()
            invariant
                i <= self.backends@.len(),
                prefix@ == id_prefix(id@),
                forall|j: int|
                    0 <= j < i ==> (#[trigger] self.backends@[j].spec_source()).spec_name()
                        != id_prefix(id@),
            decreases self.backends@.len() - i,
        {
            let source = self.backends[i].source();
            let nm = str_chars(source.name());
            if crate::text::chars_eq(nm.as_slice(), prefix.as_slice()) {
                return Ok(i);
            }
            i += 1;
        }
        let id2 = str_chars(id);
        let mut m = str_chars("No backend found for task ID: ");
        push_all(&mut m, id2.as_slice());
        Err(TasukiError::Parse(chars_string(m.as_slice())))
    }

    /// Routes a creation: the first backend with the desired source, the
    /// first configured backend if none matches, and an error only when
    /// no backend is configured.
    pub fn create_index(&self, desired: BackendSource) -> (r: Result<usize, TasukiError>)
        ensures
            r is Ok <==> self.backends@.len() > 0,
            r matches Ok(i) ==> i < self.backends@.len() && {
                if exists|j: int|
                    0 <= j < self.backends@.len() && (#[trigger] self.backends@[j]).spec_source()
                        == desired {
                    self.backends@[i as int].spec_source() == desired && forall|j: int|
                        0 <= j < i ==> (#[trigger] self.backends@[j]).spec_source() != desired
                } else {
                    i == 0
                }
            },
            r matches Err(e) ==> e matches TasukiError::Backend { backend, message } && backend@
                == "none"@ && message@ == "No backends configured"@,
    {
        let mut i: usize = 0;
        while i < self.backends.len()
            invariant
                i <= self.backends@.len(),
                forall|j: int|
                    0 <= j < i ==> (#[trigger] self.backends@[j]).spec_source() != desired,
            decreases self.backends@.len() - i,
        {
            let source = self.backends[i].source();
            if matches!((source, desired), (BackendSource::Obsidian, BackendSource::Obsidian) | (
            BackendSource::LocalFile,
            BackendSource::LocalFile,
            )) {
                return Ok(i);
            }
            i += 1;
        }
        if self.backends.len() > 0 {
            return Ok(0);
        }
        let b = str_chars("none");
        let m = str_chars("No backends configured");
        Err(
            TasukiError::Backend {
                backend: chars_string(b.as_slice()),
                message: chars_string(m.as_slice()),
            },
        )
    }
}

/// Lexicographic order on character sequences; a prefix precedes its
/// extensions. This is the order `str::cmp` gives, since UTF-8 byte
/// order follows code-point order.
pub open spec fn lex_le(a: Seq<char>, b: Seq<char>) -> bool
    decreases a.len(),
{
    if a.len() == 0 {
        true
    } else if b.len() == 0 {
        false
    } else if a[0] != b[0] {
        a[0] < b[0]
    } else {
        lex_le(a.drop_first(), b.drop_first())
    }
}

pub proof fn lemma_lex_total(a: Seq<char>, b: Seq<char>)
    ensures
        lex_le(a, b) || lex_le(b, a),
    decreases a.len(),
{
    if a.len() > 0 && b.len() > 0 && a[0] == b[0] {
        lemma_lex_total(a.drop_first(), b.drop_first());
    }
}

pub proof fn lemma_lex_trans(a: Seq<char>, b: Seq<char>, c: Seq<char>)
    requires
        lex_le(a, b),
        lex_le(b, c),
    ensures
        lex_le(a, c),
    decreases a.len(),
{
    if a.len() > 0 && b.len() > 0 && c.len() > 0 && a[0] == b[0] && b[0] == c[0] {
        lemma_lex_trans(a.drop_first(), b.drop_first(), c.drop_first());
    }
}

/// The due-date bucket: overdue, due today, due in the future, no due
/// date — computed against the caller's current date.
pub open spec fn due_rank(due: Option<Date>, today: Date) -> int {
    match due {
        Some(d) => if d.spec_lt(today) {
            0
        } else if d == today {
            1
        } else {
            2
        },
        None => 3,
    }
}

/// The deterministic total task order: due bucket first, then ascending
/// due date, then descending priority, then ascending title.
pub open spec fn task_le(today: Date, a: Task, b: Task) -> bool {
    let ra = due_rank(a.due, today);
    let rb = due_rank(b.due, today);
    if ra != rb {
        ra < rb
    } else if a.due matches Some(da) && b.due matches Some(db) && da != db {
        (a.due->0).spec_lt(b.due->0)
    } else if a.priority.spec_rank() != b.priority.spec_rank() {
        a.priority.spec_rank() > b.priority.spec_rank()
    } else {
        lex_le(a.title@, b.title@)
    }
}

/// The task order is total.
pub proof fn lemma_task_le_total(today: Date, a: Task, b: Task)
    ensures
        task_le(today, a, b) || task_le(today, b, a),
{
    lemma_lex_total(a.title@, b.title@);
    if a.due is Some && b.due is Some {
        crate::date::lemma_date_order_total(a.due->0, b.due->0);
    }
}

/// The task order is transitive.
pub proof fn lemma_task_le_trans(today: Date, a: Task, b: Task, c: Task)
    requires
        task_le(today, a, b),
        task_le(today, b, c),
    ensures
        task_le(today, a, c),
{
    if due_rank(a.due, today) == due_rank(b.due, today) && due_rank(b.due, today) == due_rank(
        c.due,
        today,
    ) {
        if a.due is Some && b.due is Some && c.due is Some {
            crate::date::lemma_date_order_trans(a.due->0, b.due->0, c.due->0);
            crate::date::lemma_date_order_total(a.due->0, b.due->0);
            crate::date::lemma_date_order_total(b.due->0, c.due->0);
            crate::date::lemma_date_order_total(a.due->0, c.due->0);
        }
        if task_le(today, a, b) && task_le(today, b, c) && a.due == b.due && b.due == c.due
            && a.priority.spec_rank() == b.priority.spec_rank() && b.priority.spec_rank()
            == c.priority.spec_rank() {
            lemma_lex_trans(a.title@, b.title@, c.title@);
        }
    }
}

/// Runtime lexicographic comparison.
#[verifier::loop_isolation(false)]
fn lex_le_exec(a: &[char], b: &[char]) -> (r: bool)
    ensures
        r == lex_le(a@, b@),
{
    let n = if a.len() < b.len() {
        a.len()
    } else {
        b.len()
    };
    let mut i: usize = 0;
    proof {
        assert(a@.skip(0) =~= a@);
        assert(b@.skip(0) =~= b@);
    }
    while i < n
        invariant
            i <= n,
            lex_le(a@, b@) == lex_le(a@.skip(i as int), b@.skip(i as int)),
        decreases n - i,
    {
        proof {
            assert(a@.skip(i as int).drop_first() =~= a@.skip(i + 1));
            assert(b@.skip(i as int).drop_first() =~= b@.skip(i + 1));
        }
        if a[i] != b[i] {
            return a[i] < b[i];
        }
        i += 1;
    }
    proof {
        if a@.len() <= b@.len() {
            assert(a@.skip(i as int).len() == 0);
        } else {
            assert(b@.skip(i as int).len() == 0 && a@.skip(i as int).len() > 0);
        }
    }
    a.len() <= b.len()
}

/// Runtime task comparison, equal to `task_le`.
pub fn task_le_exec(today: &Date, a: &Task, b: &Task) -> (r: bool)
    ensures
        r == task_le(*today, *a, *b),
{
    let ra: u8 = match &a.due {
        Some(d) => {
            if d.lt(today) {
                0
            } else if d.year == today.year && d.month == today.month && d.day == today.day {
                1
            } else {
                2
            }
        },
        None => 3,
    };
    let rb: u8 = match &b.due {
        Some(d) => {
            if d.lt(today) {
                0
            } else if d.year == today.year && d.month == today.month && d.day == today.day {
                1
            } else {
                2
            }
        },
        None => 3,
    };
    if ra != rb {
        return ra < rb;
    }
    match (&a.due, &b.due) {
        (Some(da), Some(db)) => {
            if !(da.year == db.year && da.month == db.month && da.day == db.day) {
                return da.lt(db);
            }
        },
        _ => {},
    }
    let pa = a.priority.rank();
    let pb = b.priority.rank();
    if pa != pb {
        return pa > pb;
    }
    let ta = str_chars(a.title.as_str());
    let tb = str_chars(b.title.as_str());
    lex_le_exec(ta.as_slice(), tb.as_slice())
}

pub open spec fn sorted_by(s: Seq<Task>, today: Date) -> bool {
    forall|i: int, j: int| 0 <= i < j < s.len() ==> task_le(today, #[trigger] s[i], #[trigger] s[j])
}

/// Sorts the merged tasks by the deterministic total order, preserving
/// the multiset of records.
pub fn sort_tasks(tasks: Vec<Task>, today: Date) -> (r: Vec<Task>)
    ensures
        r@.to_multiset() == tasks@.to_multiset(),
        sorted_by(r@, today),
{
    let mut out: Vec<Task> = Vec::new();
    let mut rest = tasks;
    let ghost orig = rest@;
    let n0 = rest.len();
    let mut taken: usize = 0;
    proof {
        assert(orig.take(0) =~= Seq::<Task>::empty());
        assert(rest@ =~= orig.skip(0));
        assert(out@.to_multiset() =~= orig.take(0).to_multiset());
    }
    while rest.len() > 0
        invariant
            taken <= orig.len(),
            orig.len() == n0,
            taken + rest@.len() == orig.len(),
            rest@ == orig.skip(taken as int),
            out@.to_multiset() == orig.take(taken as int).to_multiset(),
            out@.len() == taken,
            sorted_by(out@, today),
        decreases rest@.len(),
    {
        let t = rest.remove(0);
        proof {
            assert(t == orig[taken as int]);
            assert(rest@ =~= orig.skip(taken + 1));
            assert(orig.take(taken + 1) =~= orig.take(taken as int).push(orig[taken as int]));
        }
        let mut p: usize = 0;
        while p < out.len() && task_le_exec(&today, &out[p], &t)
            invariant
                p <= out@.len(),
                forall|k: int| 0 <= k < p ==> task_le(today, #[trigger] out@[k], t),
                sorted_by(out@, today),
            decreases out@.len() - p,
        {
            p += 1;
        }
        proof {
            if p < out@.len() {
                lemma_task_le_total(today, out@[p as int], t);
            }
        }
        let ghost out0 = out@;
        out.insert(p, t);
        proof {
            assert(out@ == out0.insert(p as int, t));
            assert forall|i: int, j: int| 0 <= i < j < out@.len() implies task_le(
                today,
                #[trigger] out@[i],
                #[trigger] out@[j],
            ) by {
                if i < p && j == p {
                } else if i == p && j > p {
                    if j > p + 1 {
                        lemma_task_le_trans(today, t, out0[p as int], out0[j - 1]);
                    }
                } else if i < p && j > p {
                } else if i > p || j < p {
                }
            }
        }
        taken += 1;
    }
    proof {
        assert(orig.take(taken as int) =~= orig);
    }
    out
}

impl BackendManager {
    /// Assembles an aggregate fetch from per-backend results: merges with
    /// the partial-failure policy (the call fails only when every backend
    /// failed), then sorts by the deterministic order against the
    /// caller's current date.
    pub fn all_tasks_from_results(
        &self,
        results: Vec<(String, Result<Vec<Task>, TasukiError>)>,
        today: Date,
    ) -> (r: Result<Vec<Task>, TasukiError>)
        ensures
            r is Ok <==> (results@.len() == 0 || has_ok(results@)),
            r matches Ok(ts) ==> ts@.to_multiset() == oks_concat(results@).to_multiset()
                && sorted_by(ts@, today),
            r matches Err(e) ==> (first_err(results@) matches Some(fe) && e matches
                TasukiError::Backend { backend, message } && backend@ == fe.0@ && message@
                == fe.1.spec_render()),
    {
        let merged = match self.merge_results(results) {
            Ok(ts) => ts,
            Err(e) => {
                return Err(e);
            },
        };
        Ok(sort_tasks(merged, today))
    }
}

/// A task due before today always strictly precedes a task with no due
/// date in the sort order.
pub proof fn lemma_overdue_precedes_no_due(today: Date, a: Task, b: Task)
    requires
        a.due matches Some(d) && d.spec_lt(today),
        b.due is None,
    ensures
        task_le(today, a, b),
        !task_le(today, b, a),
{
}

/// Two tasks with equal due dates and equal priorities order by title,
/// ascending lexicographically.
pub proof fn lemma_equal_due_priority_orders_by_title(today: Date, a: Task, b: Task)
    requires
        a.due == b.due,
        a.priority == b.priority,
    ensures
        task_le(today, a, b) <==> lex_le(a.title@, b.title@),
{
}

} // verus!
