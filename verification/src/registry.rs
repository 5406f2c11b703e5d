//! Durable job registry. When a run delegates a durable sub-agent, the job is
//! recorded here before it starts and its result recorded when it finishes. On a
//! restart this lets the top-level run tell which delegated jobs were still in
//! flight, resume them, and fold their results back into the conversation.
//!
//! This is a separate persistence layer from the conversation itself, so the
//! conversation on disk is always well formed (never a tool call without its
//! result).

use vstd::hash_map::StringHashMap;
use vstd::hash_set::StringHashSet;
use vstd::prelude::*;

use crate::job::{
    job_in, job_reads_back, keys_apart, result_in, result_reads_back, Job, JobResult, JobResultView,
    JobView,
};
use crate::json::{layout_of, Json, JsonView, Layout};
use crate::parts::{find_part, fits, has_at_most, part, row_takes, text_of, Found, Part};
use crate::text::{
    line_alone, lines, lines_of, lines_of_parts, one_line, same, texts, whole_lines,
};
use crate::thread::{inside, registry_name, Append, Paths};
use crate::written::{parse_written, written_in};

verus! {

// ── Records ────────────────────────────────────────────────────────────────────

/// One append-only registry line.
#[derive(Debug)]
pub enum Record {
    Issued { job: Job },
    Result { id: String, result: JobResult },
}

/// What a record is.
#[verifier::ext_equal]
pub enum RecordView {
    Issued { job: JobView },
    Result { id: Seq<char>, result: JobResultView },
}

impl View for Record {
    type V = RecordView;

    open spec fn view(&self) -> RecordView {
        match *self {
            Record::Issued { job } => RecordView::Issued { job: job@ },
            Record::Result { id, result } => RecordView::Result { id: id@, result: result@ },
        }
    }
}

impl Clone for Record {
    fn clone(&self) -> (r: Record)
        ensures
            r@ == self@,
    {
        match self {
            Record::Issued { job } => Record::Issued { job: job.clone() },
            Record::Result { id, result } => Record::Result {
                id: id.clone(),
                result: result.clone(),
            },
        }
    }
}

/// The records of a list, by their models.
pub open spec fn record_views(s: Seq<Record>) -> Seq<RecordView> {
    s.map_values(|r: Record| r@)
}

impl RecordView {
    /// The record as a JSON object, its members in the order in which they are written.
    pub open spec fn layout(self) -> Layout {
        match self {
            RecordView::Issued { job } => Layout::object().with(
                "kind"@,
                Layout::string("issued"@),
            ).with("job"@, job.layout()),
            RecordView::Result { id, result } => Layout::object().with(
                "kind"@,
                Layout::string("result"@),
            ).with("id"@, Layout::string(id)).with("result"@, result.layout()),
        }
    }
}

/// What a part holds as a job.
pub open spec fn job_of(p: Part) -> Option<JobView> {
    match p {
        Part::Given(l) => job_in(l),
        _ => None,
    }
}

/// What a part holds as a result.
pub open spec fn result_of(p: Part) -> Option<JobResultView> {
    match p {
        Part::Given(l) => result_in(l),
        _ => None,
    }
}

/// The record that is written down, as an object or as a list: its kind tells which parts it
/// has. `None` where one of them is missing, is there more than once, or does not hold what it
/// should, and where a list goes on behind the last part. Other members of an object do not
/// matter.
pub open spec fn record_in(l: Layout) -> Option<RecordView> {
    let kind = text_of(part(l, "kind"@, 0));
    if kind == Some("issued"@) {
        match job_of(part(l, "job"@, 1)) {
            Some(job) if fits(l, 2) => Some(RecordView::Issued { job }),
            _ => None,
        }
    } else if kind == Some("result"@) {
        match (text_of(part(l, "id"@, 1)), result_of(part(l, "result"@, 2))) {
            (Some(id), Some(result)) if fits(l, 3) => Some(RecordView::Result { id, result }),
            _ => None,
        }
    } else {
        None
    }
}

/// A record that is written down reads back as it was.
pub proof fn record_reads_back(r: RecordView)
    ensures
        record_in(r.layout()) == Some(r),
        r.layout().plain(127),
{
    keys_apart();
    let l0 = Layout::object();
    let l = r.layout();
    match r {
        RecordView::Issued { job } => {
            job_reads_back(job, 126);
            let l1 = l0.with("kind"@, Layout::string("issued"@));
            row_takes(l0, "kind"@, Layout::string("issued"@), 127);
            row_takes(l1, "job"@, job.layout(), 127);
            assert(part(l, "kind"@, 0) == Part::Given(Layout::string("issued"@)));
            assert(part(l, "job"@, 1) == Part::Given(job.layout()));
        },
        RecordView::Result { id, result } => {
            result_reads_back(result, 126);
            let l1 = l0.with("kind"@, Layout::string("result"@));
            row_takes(l0, "kind"@, Layout::string("result"@), 127);
            let l2 = l1.with("id"@, Layout::string(id));
            row_takes(l1, "id"@, Layout::string(id), 127);
            row_takes(l2, "result"@, result.layout(), 127);
            assert(part(l, "kind"@, 0) == Part::Given(Layout::string("result"@)));
            assert(part(l, "id"@, 1) == Part::Given(Layout::string(id)));
            assert(part(l, "result"@, 2) == Part::Given(result.layout()));
        },
    }
}

/// What reading a record gave, by its model.
pub open spec fn record_shown(r: Option<Record>) -> Option<RecordView> {
    match r {
        Some(x) => Some(x@),
        None => None,
    }
}

impl Record {
    /// The record as a JSON object.
    pub fn json(&self) -> (r: Json)
        ensures
            layout_of(r) == self@.layout(),
    {
        match self {
            Record::Issued { job } => Json::object().with("kind", Json::text("issued")).with(
                "job",
                job.json(),
            ),
            Record::Result { id, result } => Json::object().with(
                "kind",
                Json::text("result"),
            ).with("id", Json::text(id.as_str())).with("result", result.json()),
        }
    }

    /// The record that is written down.
    pub fn of_json(v: &Json) -> (r: Option<Record>)
        ensures
            record_shown(r) == record_in(layout_of(*v)),
    {
        proof {
            keys_apart();
        }
        let kind = match find_part(v, "kind", 0).text() {
            Some(s) => s,
            None => return None,
        };
        if same(kind.as_str(), "issued") {
            let job = match find_part(v, "job", 1) {
                Found::Given(x) => Job::of_json(x),
                _ => None,
            };
            match job {
                Some(job) if has_at_most(v, 2) => Some(Record::Issued { job }),
                _ => None,
            }
        } else if same(kind.as_str(), "result") {
            let id = match find_part(v, "id", 1).text() {
                Some(s) => s,
                None => return None,
            };
            let result = match find_part(v, "result", 2) {
                Found::Given(x) => JobResult::of_json(x),
                _ => None,
            };
            match result {
                Some(result) if has_at_most(v, 3) => Some(Record::Result { id, result }),
                _ => None,
            }
        } else {
            None
        }
    }
}

// ── The file ───────────────────────────────────────────────────────────────────

/// The record on a line.
pub open spec fn record_on(line: Seq<char>) -> Option<RecordView> {
    match written_in(line) {
        Some(l) => record_in(l),
        None => None,
    }
}

/// The records on those lines that hold one, in order.
pub open spec fn records_on(ls: Seq<Seq<char>>) -> Seq<RecordView>
    decreases ls.len(),
{
    if ls.len() == 0 {
        seq![]
    } else {
        let before = records_on(ls.drop_last());
        match record_on(ls.last()) {
            Some(r) => before.push(r),
            None => before,
        }
    }
}

/// The records in the text of a registry's file.
pub open spec fn records_in(contents: Seq<char>) -> Seq<RecordView> {
    records_on(lines(contents))
}

/// Each line that holds the compact text of a value reads as that value is written down.
pub open spec fn lines_as_written(ls: Seq<Seq<char>>) -> bool {
    forall|i: int, l: Layout|
        0 <= i < ls.len() && #[trigger] ls[i] == #[trigger] l.text() && l.plain(127)
            ==> written_in(ls[i]) == Some(l)
}

/// The text in which records are kept, each on a line of its own.
pub open spec fn registry_text(rs: Seq<RecordView>) -> Seq<char>
    decreases rs.len(),
{
    if rs.len() == 0 {
        seq![]
    } else {
        registry_text(rs.drop_last()) + rs.last().layout().text() + "\n"@
    }
}

/// Each record is written on one line.
pub open spec fn on_lines(rs: Seq<RecordView>) -> bool {
    forall|i: int| 0 <= i < rs.len() ==> one_line((#[trigger] rs[i]).layout().text())
}

fn append(paths: &Paths, parent_thread_id: &str, record: &Record) -> (r: Append)
    ensures
        r.path@ == inside(paths.registry_dir@, registry_name(parent_thread_id@)),
        r.text@ == registry_text(seq![record@]),
        whole_lines(r.text@),
        on_lines(seq![record@]),
{
    proof {
        reveal_strlit("\n");
    }
    let line = record.json().compact();
    let text = line.concat("\n");
    proof {
        let rs = seq![record@];
        assert(rs.drop_last() =~= seq![]);
        assert(registry_text(rs.drop_last()) =~= seq![]);
        assert(registry_text(rs) =~= text@);
    }
    Append { path: paths.registry_path(parent_thread_id), text }
}

/// What is written to the registry when a job is handed out.
pub fn append_issued(paths: &Paths, parent_thread_id: &str, job: &Job) -> (r: Append)
    ensures
        r.path@ == inside(paths.registry_dir@, registry_name(parent_thread_id@)),
        r.text@ == registry_text(seq![RecordView::Issued { job: job@ }]),
        whole_lines(r.text@),
        on_lines(seq![RecordView::Issued { job: job@ }]),
{
    append(paths, parent_thread_id, &Record::Issued { job: job.clone() })
}

/// What is written to the registry when a job is done.
pub fn append_result(paths: &Paths, parent_thread_id: &str, result: &JobResult) -> (r: Append)
    ensures
        r.path@ == inside(paths.registry_dir@, registry_name(parent_thread_id@)),
        r.text@ == registry_text(seq![RecordView::Result { id: result.id@, result: result@ }]),
        whole_lines(r.text@),
        on_lines(seq![RecordView::Result { id: result.id@, result: result@ }]),
{
    append(
        paths,
        parent_thread_id,
        &Record::Result { id: result.id.clone(), result: result.clone() },
    )
}

proof fn records_of_parts(a: Seq<Seq<char>>, b: Seq<Seq<char>>)
    ensures
        records_on(a + b) == records_on(a) + records_on(b),
    decreases b.len(),
{
    if b.len() == 0 {
        assert(a + b =~= a);
        assert(records_on(a) + records_on(b) =~= records_on(a));
    } else {
        assert((a + b).drop_last() =~= a + b.drop_last());
        records_of_parts(a, b.drop_last());
        assert(records_on(a + b) =~= records_on(a) + records_on(b));
    }
}

/// The lines of a registry's text.
proof fn lines_of_registry(rs: Seq<RecordView>)
    requires
        on_lines(rs),
    ensures
        lines(registry_text(rs)) == rs.map_values(|r: RecordView| r.layout().text()),
        whole_lines(registry_text(rs)),
    decreases rs.len(),
{
    reveal_strlit("\n");
    if rs.len() > 0 {
        let before = rs.drop_last();
        assert forall|i: int| 0 <= i < before.len() implies one_line(
            (#[trigger] before[i]).layout().text(),
        ) by {
            assert(before[i] == rs[i]);
        }
        lines_of_registry(before);
        let line = rs.last().layout().text() + "\n"@;
        assert(rs[rs.len() - 1] == rs.last());
        line_alone(rs.last().layout().text());
        lines_of_parts(registry_text(before), line);
        assert(registry_text(rs) =~= registry_text(before) + line);
        assert(lines(registry_text(rs)) =~= rs.map_values(
            |r: RecordView| r.layout().text(),
        ));
    } else {
        assert(lines(registry_text(rs)) =~= rs.map_values(
            |r: RecordView| r.layout().text(),
        ));
    }
}

proof fn records_of_texts(rs: Seq<RecordView>, ls: Seq<Seq<char>>)
    requires
        ls.len() == rs.len(),
        forall|i: int| 0 <= i < ls.len() ==> record_on(#[trigger] ls[i]) == Some(rs[i]),
    ensures
        records_on(ls) == rs,
    decreases ls.len(),
{
    if ls.len() > 0 {
        records_of_texts(rs.drop_last(), ls.drop_last());
        assert(record_on(ls[ls.len() - 1]) == Some(rs.last()));
        assert(records_on(ls) =~= rs);
    } else {
        assert(records_on(ls) =~= rs);
    }
}

proof fn appended_records(before: Seq<char>, rs: Seq<RecordView>)
    requires
        whole_lines(before),
        on_lines(rs),
        lines_as_written(lines(before + registry_text(rs))),
    ensures
        records_in(before + registry_text(rs)) == records_in(before) + rs,
{
    let ls = rs.map_values(|r: RecordView| r.layout().text());
    lines_of_registry(rs);
    lines_of_parts(before, registry_text(rs));
    records_of_parts(lines(before), ls);
    let all = lines(before) + ls;
    let n = lines(before).len();
    assert forall|i: int| 0 <= i < ls.len() implies record_on(#[trigger] ls[i]) == Some(rs[i]) by {
        record_reads_back(rs[i]);
        assert(all[n + i] == rs[i].layout().text());
    }
    records_of_texts(rs, ls);
}

/// Records that are added in two parts are added as if at once.
pub proof fn registry_text_of_parts(a: Seq<RecordView>, b: Seq<RecordView>)
    ensures
        registry_text(a + b) == registry_text(a) + registry_text(b),
    decreases b.len(),
{
    if b.len() == 0 {
        assert(a + b =~= a);
        assert(registry_text(a) + registry_text(b) =~= registry_text(a));
    } else {
        assert((a + b).drop_last() =~= a + b.drop_last());
        registry_text_of_parts(a, b.drop_last());
        assert(registry_text(a + b) =~= registry_text(a) + registry_text(b));
    }
}

/// The records of a registry, from the text of its file; none where there is no file. Lines
/// that hold no record are skipped.
///
/// What was appended is given back: a file that grew by the text of some records holds the
/// records it held before, and then those.
pub fn load(contents: Option<&str>) -> (r: Vec<Record>)
    ensures
        record_views(r@) == match contents {
            Some(c) => records_in(c@),
            None => seq![],
        },
        contents matches Some(c) ==> forall|before: Seq<char>, rs: Seq<RecordView>|
            c@ == #[trigger] (before + registry_text(rs)) && whole_lines(before) && on_lines(rs)
                ==> record_views(r@) == records_in(before) + rs,
{
    let mut out: Vec<Record> = Vec::new();
    assert(record_views(out@) =~= seq![]);
    if let Some(c) = contents {
        let ls = lines_of(c);
        let ghost all = texts(ls@);
        let mut i: usize = 0;
        assert(records_on(all.take(0)) =~= seq![]);
        while i < ls.len()
            invariant
                all == texts(ls@),
                i <= ls@.len(),
                record_views(out@) == records_on(all.take(i as int)),
                lines_as_written(all.take(i as int)),
            decreases ls@.len() - i,
        {
            let ghost before = out@;
            assert(all.take(i + 1).drop_last() =~= all.take(i as int));
            assert(all.take(i + 1).last() == ls@[i as int]@);
            assert forall|k: int| 0 <= k < i implies #[trigger] all.take(i + 1)[k] == all.take(
                i as int,
            )[k] by {}
            if let Some(v) = parse_written(ls[i].as_str()) {
                if let Some(rec) = Record::of_json(&v) {
                    out.push(rec);
                    assert(record_views(out@) =~= record_views(before).push(rec@));
                }
            }
            i += 1;
        }
        assert(all.take(all.len() as int) =~= all);
        proof {
            assert forall|before: Seq<char>, rs: Seq<RecordView>|
                c@ == #[trigger] (before + registry_text(rs)) && whole_lines(before) && on_lines(
                    rs,
                ) implies record_views(out@) == records_in(before) + rs by {
                appended_records(before, rs);
            }
        }
    }
    out
}

// ── What the records say ───────────────────────────────────────────────────────

/// One of the jobs has the id.
pub open spec fn listed(jobs: Seq<JobView>, id: Seq<char>) -> bool {
    exists|i: int| 0 <= i < jobs.len() && (#[trigger] jobs[i]).id == id
}

/// Every job that was issued, in issue order; of several with one id, the first.
pub open spec fn issued(rs: Seq<RecordView>) -> Seq<JobView>
    decreases rs.len(),
{
    if rs.len() == 0 {
        seq![]
    } else {
        let before = issued(rs.drop_last());
        match rs.last() {
            RecordView::Issued { job } if !listed(before, job.id) => before.push(job),
            _ => before,
        }
    }
}

/// The result of each id; of several, the last.
pub open spec fn outcomes(rs: Seq<RecordView>) -> Map<Seq<char>, JobResultView>
    decreases rs.len(),
{
    if rs.len() == 0 {
        Map::empty()
    } else {
        let before = outcomes(rs.drop_last());
        match rs.last() {
            RecordView::Result { id, result } => before.insert(id, result),
            _ => before,
        }
    }
}

/// Issued jobs that have no result yet.
pub open spec fn pending(rs: Seq<RecordView>) -> Seq<JobView> {
    unfinished(issued(rs), outcomes(rs))
}

/// Those of the jobs whose id has no result.
pub open spec fn unfinished(
    jobs: Seq<JobView>,
    done: Map<Seq<char>, JobResultView>,
) -> Seq<JobView> {
    jobs.filter(|j: JobView| !done.contains_key(j.id))
}

/// The jobs of a list, by their models.
pub open spec fn job_views(s: Seq<Job>) -> Seq<JobView> {
    s.map_values(|j: Job| j@)
}

/// The results of a map, by their models.
pub open spec fn result_map(m: Map<Seq<char>, JobResult>) -> Map<Seq<char>, JobResultView> {
    m.map_values(|r: JobResult| r@)
}

/// No id is issued twice, and every id that some record issues is among the jobs.
pub proof fn issued_once(rs: Seq<RecordView>)
    ensures
        forall|i: int, j: int|
            0 <= i < j < issued(rs).len() ==> (#[trigger] issued(rs)[i]).id != (
            #[trigger] issued(rs)[j]).id,
        forall|k: int|
            0 <= k < rs.len() && (#[trigger] rs[k]) is Issued ==> listed(issued(rs), rs[k]->job.id),
    decreases rs.len(),
{
    if rs.len() > 0 {
        let before = issued(rs.drop_last());
        issued_once(rs.drop_last());
        assert forall|k: int| 0 <= k < rs.len() && (#[trigger] rs[k]) is Issued implies listed(
            issued(rs),
            rs[k]->job.id,
        ) by {
            if k < rs.len() - 1 {
                assert(rs.drop_last()[k] == rs[k]);
                let i = choose|i: int|
                    0 <= i < before.len() && (#[trigger] before[i]).id == rs[k]->job.id;
                assert(issued(rs)[i] == before[i]);
            } else if !listed(before, rs[k]->job.id) {
                assert(issued(rs)[before.len() as int].id == rs[k]->job.id);
            }
        }
        assert forall|i: int, j: int| 0 <= i < j < issued(rs).len() implies (
        #[trigger] issued(rs)[i]).id != (#[trigger] issued(rs)[j]).id by {
            if j < before.len() {
                assert(before[i].id != before[j].id);
            } else {
                assert(issued(rs)[i] == before[i]);
            }
        }
    }
}

/// A result that is recorded takes its job out of those in flight, and no other; which jobs
/// were issued stays as it is.
pub proof fn result_settles(rs: Seq<RecordView>, id: Seq<char>, result: JobResultView)
    ensures
        issued(rs.push(RecordView::Result { id, result })) == issued(rs),
        pending(rs.push(RecordView::Result { id, result })) == pending(rs).filter(
            |j: JobView| j.id != id,
        ),
        !listed(pending(rs.push(RecordView::Result { id, result })), id),
{
    let more = rs.push(RecordView::Result { id, result });
    assert(more.drop_last() =~= rs);
    let jobs = issued(rs);
    let done = outcomes(rs);
    assert(issued(more) == jobs);
    assert(outcomes(more) == done.insert(id, result));
    filters_meet(jobs, done, id, result);
    let left = pending(more);
    broadcast use vstd::seq_lib::group_filter_ensures;

    if listed(left, id) {
        let i = choose|i: int| 0 <= i < left.len() && (#[trigger] left[i]).id == id;
        assert(!done.insert(id, result).contains_key(left[i].id));
    }
}

proof fn filters_meet(
    jobs: Seq<JobView>,
    done: Map<Seq<char>, JobResultView>,
    id: Seq<char>,
    result: JobResultView,
)
    ensures
        unfinished(jobs, done.insert(id, result)) == unfinished(jobs, done).filter(
            |j: JobView| j.id != id,
        ),
    decreases jobs.len(),
{
    let p = |j: JobView| !done.insert(id, result).contains_key(j.id);
    let q = |j: JobView| !done.contains_key(j.id);
    let r = |j: JobView| j.id != id;
    reveal_with_fuel(Seq::filter, 2);
    if jobs.len() > 0 {
        let rest = jobs.drop_last();
        let x = jobs.last();
        filters_meet(rest, done, id, result);
        if q(x) {
            assert(jobs.filter(q).drop_last() =~= rest.filter(q));
        }
        assert(jobs.filter(p) =~= jobs.filter(q).filter(r));
    } else {
        assert(jobs.filter(p) =~= jobs.filter(q).filter(r));
    }
}

/// Every job that was issued, in issue order (deduplicated by id).
pub fn issued_jobs(records: &Vec<Record>) -> (r: Vec<Job>)
    ensures
        job_views(r@) == issued(record_views(records@)),
{
    let ghost all = record_views(records@);
    let mut seen = StringHashSet::new();
    let mut out: Vec<Job> = Vec::new();
    let mut i: usize = 0;
    assert(job_views(out@) =~= issued(all.take(0)));
    while i < records.len()
        invariant
            all == record_views(records@),
            i <= records@.len(),
            job_views(out@) == issued(all.take(i as int)),
            forall|id: Seq<char>| #[trigger] seen@.contains(id) == listed(job_views(out@), id),
        decreases records@.len() - i,
    {
        assert(all.take(i + 1).drop_last() =~= all.take(i as int));
        assert(all.take(i + 1).last() == records@[i as int]@);
        if let Record::Issued { job } = &records[i] {
            let ghost before = job_views(out@);
            if seen.insert(job.id.clone()) {
                out.push(job.clone());
                proof {
                    let now = job_views(out@);
                    assert(now =~= before.push(job@));
                    assert forall|id: Seq<char>| listed(now, id) == (listed(before, id) || id
                        == job.id@) by {
                        if listed(before, id) {
                            let k = choose|k: int|
                                0 <= k < before.len() && (#[trigger] before[k]).id == id;
                            assert(now[k].id == id);
                        }
                        if id == job.id@ {
                            assert(now[before.len() as int].id == id);
                        }
                        if listed(now, id) {
                            let k = choose|k: int|
                                0 <= k < now.len() && (#[trigger] now[k]).id == id;
                            if k < before.len() {
                                assert(before[k].id == id);
                            }
                        }
                    }
                }
            }
        }
        i += 1;
    }
    assert(all.take(all.len() as int) =~= all);
    out
}

/// Map of job id -> its recorded result (last write wins).
pub fn results_map(records: &Vec<Record>) -> (r: StringHashMap<JobResult>)
    ensures
        result_map(r@) == outcomes(record_views(records@)),
{
    let ghost all = record_views(records@);
    let mut m: StringHashMap<JobResult> = StringHashMap::new();
    let mut i: usize = 0;
    assert(result_map(m@) =~= outcomes(all.take(0)));
    while i < records.len()
        invariant
            all == record_views(records@),
            i <= records@.len(),
            result_map(m@) == outcomes(all.take(i as int)),
        decreases records@.len() - i,
    {
        let ghost before = m@;
        assert(all.take(i + 1).drop_last() =~= all.take(i as int));
        assert(all.take(i + 1).last() == records@[i as int]@);
        if let Record::Result { id, result } = &records[i] {
            m.insert(id.clone(), result.clone());
            assert(result_map(m@) =~= result_map(before).insert(id@, result@));
        }
        i += 1;
    }
    assert(all.take(all.len() as int) =~= all);
    m
}

/// Issued jobs that have no result yet — the ones to resume.
pub fn in_flight(records: &Vec<Record>) -> (r: Vec<Job>)
    ensures
        job_views(r@) == pending(record_views(records@)),
{
    let done = results_map(records);
    let jobs = issued_jobs(records);
    let ghost all = job_views(jobs@);
    let ghost finished = outcomes(record_views(records@));
    let ghost open = |j: JobView| !finished.contains_key(j.id);
    let mut out: Vec<Job> = Vec::new();
    proof {
        reveal_with_fuel(Seq::filter, 2);
        assert(job_views(out@) =~= all.take(0).filter(open));
    }
    let mut i: usize = 0;
    while i < jobs.len()
        invariant
            all == job_views(jobs@),
            result_map(done@) == finished,
            open == (|j: JobView| !finished.contains_key(j.id)),
            i <= jobs@.len(),
            job_views(out@) == all.take(i as int).filter(open),
        decreases jobs@.len() - i,
    {
        proof {
            reveal_with_fuel(Seq::filter, 2);
            assert(all.take(i + 1).drop_last() =~= all.take(i as int));
            assert(all.take(i + 1).last() == jobs@[i as int]@);
            assert(result_map(done@).contains_key(jobs@[i as int].id@) == done@.contains_key(
                jobs@[i as int].id@,
            ));
        }
        let ghost before = out@;
        if !done.contains_key(jobs[i].id.as_str()) {
            out.push(jobs[i].clone());
            assert(job_views(out@) =~= job_views(before).push(jobs@[i as int]@));
        }
        i += 1;
    }
    assert(all.take(all.len() as int) =~= all);
    out
}

// ── Laws ───────────────────────────────────────────────────────────────────────

/// A record is written down with its kind and with what it holds, each part under its key and
/// in this order.
pub proof fn record_is_written_whole(r: RecordView)
    ensures
        r.layout() matches Layout::Object(s) && match r {
            RecordView::Issued { job } => {
                &&& s.len() == 2
                &&& s[0] == ("kind"@, Layout::Scalar(JsonView::Str("issued"@)))
                &&& s[1] == ("job"@, job.layout())
            },
            RecordView::Result { id, result } => {
                &&& s.len() == 3
                &&& s[0] == ("kind"@, Layout::Scalar(JsonView::Str("result"@)))
                &&& s[1] == ("id"@, Layout::Scalar(JsonView::Str(id)))
                &&& s[2] == ("result"@, result.layout())
            },
        },
{
}

/// A record that is read is of the kind that stands there, and holds the job, or the id and the
/// result, that stand there.
pub proof fn record_read_is_what_stands(l: Layout)
    ensures
        record_in(l) matches Some(RecordView::Issued { job }) ==> {
            &&& part(l, "kind"@, 0) == Part::Given(Layout::Scalar(JsonView::Str("issued"@)))
            &&& part(l, "job"@, 1) matches Part::Given(x) && job_in(x) == Some(job)
        },
        record_in(l) matches Some(RecordView::Result { id, result }) ==> {
            &&& part(l, "kind"@, 0) == Part::Given(Layout::Scalar(JsonView::Str("result"@)))
            &&& part(l, "id"@, 1) == Part::Given(Layout::Scalar(JsonView::Str(id)))
            &&& part(l, "result"@, 2) matches Part::Given(x) && result_in(x) == Some(result)
        },
        !(l is Array) && part(l, "kind"@, 0) == Part::Given(
            Layout::Scalar(JsonView::Str("issued"@)),
        ) && (part(l, "job"@, 1) matches Part::Given(x) && job_in(x) is Some) ==> record_in(
            l,
        ) is Some,
        !(l is Array) && part(l, "kind"@, 0) == Part::Given(
            Layout::Scalar(JsonView::Str("result"@)),
        ) && (part(l, "id"@, 1) matches Part::Given(Layout::Scalar(JsonView::Str(_)))) && (part(
            l,
            "result"@,
            2,
        ) matches Part::Given(x) && result_in(x) is Some) ==> record_in(l) is Some,
{
    keys_apart();
    assert("issued"@[0] != "result"@[0]);
}

/// The text of one record is its compact text on a line of its own; the records of several
/// lines are those of the first lines, and then those of the others, and a line that holds no
/// record adds nothing.
pub proof fn records_line_by_line(
    r: RecordView,
    a: Seq<Seq<char>>,
    line: Seq<char>,
    b: Seq<Seq<char>>,
)
    ensures
        registry_text(seq![r]) == r.layout().text() + "\n"@,
        records_on(a + b) == records_on(a) + records_on(b),
        records_on(Seq::<Seq<char>>::empty()).len() == 0,
        record_on(line) is None ==> records_on(seq![line]).len() == 0,
        record_on(line) matches Some(x) ==> records_on(seq![line]) == seq![x],
{
    let rs = seq![r];
    assert(rs.drop_last() =~= seq![]);
    assert(registry_text(rs.drop_last()) =~= seq![]);
    assert(registry_text(rs) =~= r.layout().text() + "\n"@);
    records_of_parts(a, b);
    let one = seq![line];
    assert(one.drop_last() =~= seq![]);
    assert(records_on(one.drop_last()) =~= seq![]);
    if let Some(x) = record_on(line) {
        assert(records_on(one) =~= seq![x]);
    }
}

/// The result that counts for an id is the one that was recorded last.
pub proof fn last_result_counts(rs: Seq<RecordView>, i: int, id: Seq<char>, result: JobResultView)
    requires
        0 <= i < rs.len(),
        rs[i] == (RecordView::Result { id, result }),
        forall|j: int|
            i < j < rs.len() && (#[trigger] rs[j]) is Result ==> rs[j]->Result_id != id,
    ensures
        outcomes(rs).contains_key(id),
        outcomes(rs)[id] == result,
    decreases rs.len(),
{
    if i < rs.len() - 1 {
        let before = rs.drop_last();
        assert(before[i] == rs[i]);
        assert forall|j: int|
            i < j < before.len() && (#[trigger] before[j]) is Result implies before[j]->Result_id
            != id by {
            assert(before[j] == rs[j]);
        }
        last_result_counts(before, i, id, result);
        assert(rs[rs.len() - 1] is Result ==> rs[rs.len() - 1]->Result_id != id);
    }
}

/// Where a result counts for an id, it was recorded for that id, and none after it; its place
/// is given back.
pub proof fn counted_result_is_recorded(rs: Seq<RecordView>, id: Seq<char>) -> (i: int)
    requires
        outcomes(rs).contains_key(id),
    ensures
        0 <= i < rs.len(),
        rs[i] == (RecordView::Result { id, result: outcomes(rs)[id] }),
        forall|j: int|
            i < j < rs.len() && (#[trigger] rs[j]) is Result ==> rs[j]->Result_id != id,
    decreases rs.len(),
{
    let before = rs.drop_last();
    if rs.last() is Result && rs.last()->Result_id == id {
        rs.len() - 1
    } else {
        let i = counted_result_is_recorded(before, id);
        assert(before[i] == rs[i]);
        assert forall|j: int| i < j < rs.len() && (#[trigger] rs[j]) is Result implies
            rs[j]->Result_id != id by {
            if j < rs.len() - 1 {
                assert(before[j] == rs[j]);
            }
        }
        i
    }
}

/// Each of the issued jobs is the one that was recorded first under its id, and they stand in
/// the order in which they were recorded: the place of the record of the job at `k` is given
/// back, and lies behind that of any job before it.
pub proof fn issued_job_is_recorded(rs: Seq<RecordView>, k: int) -> (i: int)
    requires
        0 <= k < issued(rs).len(),
    ensures
        0 <= i < rs.len(),
        rs[i] == (RecordView::Issued { job: issued(rs)[k] }),
        forall|j: int|
            0 <= j < i && (#[trigger] rs[j]) is Issued ==> rs[j]->job.id != issued(rs)[k].id,
        issued(rs.take(i)) == issued(rs).take(k),
    decreases rs.len(),
{
    let before = rs.drop_last();
    if k < issued(before).len() {
        let i = issued_job_is_recorded(before, k);
        assert(before[i] == rs[i]);
        assert(before.take(i) =~= rs.take(i));
        assert(issued(rs).take(k) =~= issued(before).take(k));
        assert forall|j: int| 0 <= j < i && (#[trigger] rs[j]) is Issued implies rs[j]->job.id
            != issued(rs)[k].id by {
            assert(before[j] == rs[j]);
        }
        i
    } else {
        let i = rs.len() - 1;
        assert(rs.take(i) =~= before);
        assert(issued(rs).take(k) =~= issued(before));
        issued_once(before);
        assert forall|j: int| 0 <= j < i && (#[trigger] rs[j]) is Issued implies rs[j]->job.id
            != issued(rs)[k].id by {
            assert(before[j] == rs[j]);
        }
        i
    }
}

/// The first job that is recorded under an id is among the issued jobs, as it was recorded; its
/// place among them is given back.
pub proof fn recorded_job_is_issued(rs: Seq<RecordView>, i: int) -> (k: int)
    requires
        0 <= i < rs.len(),
        rs[i] is Issued,
        forall|j: int|
            0 <= j < i && (#[trigger] rs[j]) is Issued ==> rs[j]->job.id != rs[i]->job.id,
    ensures
        0 <= k < issued(rs).len(),
        issued(rs)[k] == rs[i]->job,
    decreases rs.len(),
{
    let before = rs.drop_last();
    if i < rs.len() - 1 {
        assert(before[i] == rs[i]);
        assert forall|j: int| 0 <= j < i && (#[trigger] before[j]) is Issued implies
            before[j]->job.id != before[i]->job.id by {
            assert(before[j] == rs[j]);
        }
        recorded_job_is_issued(before, i)
    } else {
        if listed(issued(before), rs[i]->job.id) {
            let jobs = issued(before);
            let m = choose|m: int| 0 <= m < jobs.len() && (#[trigger] jobs[m]).id == rs[i]->job.id;
            let j = issued_job_is_recorded(before, m);
            assert(rs[j] == before[j]);
        }
        issued(before).len() as int
    }
}

/// A job is in flight exactly where it was issued and no result is recorded under its id.
pub proof fn in_flight_without_result(rs: Seq<RecordView>, job: JobView)
    ensures
        pending(rs).contains(job) <==> issued(rs).contains(job) && forall|j: int|
            0 <= j < rs.len() && (#[trigger] rs[j]) is Result ==> rs[j]->Result_id != job.id,
{
    let jobs = issued(rs);
    let done = outcomes(rs);
    let open = |j: JobView| !done.contains_key(j.id);
    kept_or_not(jobs, open, job);
    if done.contains_key(job.id) {
        let i = counted_result_is_recorded(rs, job.id);
        assert(rs[i] is Result && rs[i]->Result_id == job.id);
    } else {
        assert forall|j: int| 0 <= j < rs.len() && (#[trigger] rs[j]) is Result implies
            rs[j]->Result_id != job.id by {
            if rs[j]->Result_id == job.id {
                has_outcome(rs, j);
            }
        }
    }
}

proof fn kept_or_not(jobs: Seq<JobView>, open: spec_fn(JobView) -> bool, job: JobView)
    ensures
        jobs.filter(open).contains(job) <==> jobs.contains(job) && open(job),
    decreases jobs.len(),
{
    reveal(Seq::filter);
    if jobs.len() > 0 {
        let rest = jobs.drop_last();
        kept_or_not(rest, open, job);
        let kept = rest.filter(open);
        if jobs.contains(job) && open(job) {
            let i = choose|i: int| 0 <= i < jobs.len() && jobs[i] == job;
            if i < rest.len() {
                assert(rest[i] == job);
                let k = choose|k: int| 0 <= k < kept.len() && kept[k] == job;
                assert(jobs.filter(open)[k] == job);
            } else {
                assert(jobs.filter(open)[kept.len() as int] == job);
            }
        }
        if jobs.filter(open).contains(job) {
            let k = choose|k: int|
                0 <= k < jobs.filter(open).len() && jobs.filter(open)[k] == job;
            if k < kept.len() {
                assert(kept[k] == job);
                let i = choose|i: int| 0 <= i < rest.len() && rest[i] == job;
                assert(jobs[i] == job);
            } else {
                assert(jobs[jobs.len() - 1] == job);
            }
        }
    }
}

proof fn has_outcome(rs: Seq<RecordView>, i: int)
    requires
        0 <= i < rs.len(),
        rs[i] is Result,
    ensures
        outcomes(rs).contains_key(rs[i]->Result_id),
    decreases rs.len(),
{
    if i < rs.len() - 1 {
        assert(rs.drop_last()[i] == rs[i]);
        has_outcome(rs.drop_last(), i);
    }
}

} // verus!
