//! The decisions of the engine that runs a planned pipeline: which UDF each
//! operator's task runs, which channels it receives and which one it reads.
//!
//! The engine creates one channel per operator, owned by that operator's
//! output. The task of an operator takes the receivers of the channels of all
//! the operators it depends on; a transform or a sink reads the one of its last
//! dependency. Each UDF and each receiver can be handed out once.
use crate::dag::manifest::{op_ids, op_udfs, Operator, OperatorKind};
use crate::lookup::{is_last_index, last_index, lemma_last_index_found, lemma_last_index_is};
use crate::source_connectors::source_connector::SourceConnectorError;
use vstd::prelude::*;
use vstd::std_specs::convert::FromSpecImpl;

verus! {

/// Why running a pipeline failed.
#[derive(Debug)]
pub enum RuntimeError {
    /// An operator's UDF failed: the operator's id and the message.
    ExecutionError(String, String),
    /// A source connector failed.
    SourceConnector(SourceConnectorError),
}

impl From<SourceConnectorError> for RuntimeError {
    fn from(err: SourceConnectorError) -> (r: Self) {
        RuntimeError::SourceConnector(err)
    }
}

impl FromSpecImpl<SourceConnectorError> for RuntimeError {
    open spec fn obeys_from_spec() -> bool {
        true
    }

    open spec fn from_spec(v: SourceConnectorError) -> Self {
        RuntimeError::SourceConnector(v)
    }
}

/// What a running task of an operator has just seen.
pub enum TaskEvent {
    /// A batch arrived: from the source connector for a source, from the
    /// input channel otherwise.
    Batch,
    /// The source connector or the input channel has no more batches.
    End,
    /// The output channel took the result of the UDF.
    Sent,
    /// The output channel is closed: nobody reads the results any more.
    SendFailed,
}

/// What a running task does next.
pub enum TaskAction {
    /// Run the UDF on the batch and send its result to the output channel.
    ExecuteAndSend,
    /// Run the UDF on the batch and keep nothing (a sink).
    Execute,
    /// Wait for the next batch.
    Continue,
    /// Leave the loop.
    Stop,
    /// Leave the loop and report that the output channel closed (a source).
    StopReportingClosedChannel,
}

/// The rules of a task's loop: a batch is run through the UDF and, but for
/// a sink, sent on; the loop ends with its input, and when the output channel
/// closes, which a source reports.
pub open spec fn task_action(kind: OperatorKind, event: TaskEvent) -> TaskAction {
    match event {
        TaskEvent::Batch => if kind is Sink {
            TaskAction::Execute
        } else {
            TaskAction::ExecuteAndSend
        },
        TaskEvent::End => TaskAction::Stop,
        TaskEvent::Sent => TaskAction::Continue,
        TaskEvent::SendFailed => if kind is Source {
            TaskAction::StopReportingClosedChannel
        } else {
            TaskAction::Stop
        },
    }
}

/// The rules of every task's loop, for every kind of operator and every
/// event: after a result is sent the task goes on; it leaves its loop exactly
/// when its input ends or its output channel closes, and reports the closed
/// channel exactly when it is a source; a batch is always run through the
/// UDF, and its result is sent on exactly when the task is not a sink.
pub proof fn lemma_task_loop_rules(kind: OperatorKind, event: TaskEvent)
    ensures
        event is Sent ==> task_action(kind, event) is Continue,
        (task_action(kind, event) is Stop || task_action(kind, event) is StopReportingClosedChannel)
            <==> (event is End || event is SendFailed),
        task_action(kind, event) is StopReportingClosedChannel <==> (event is SendFailed
            && kind is Source),
        task_action(kind, event) is Continue <==> event is Sent,
        event is Batch ==> (task_action(kind, event) is ExecuteAndSend || task_action(
            kind,
            event,
        ) is Execute),
        event is Batch ==> (task_action(kind, event) is ExecuteAndSend <==> !(kind is Sink)),
{
}

/// Runs planned pipelines.
pub struct Engine {}

/// The wiring of the task of one operator.
pub struct TaskWiring {
    /// Index, among the registered UDF names, of the UDF that the task runs.
    pub udf: usize,
    /// For each dependency of the operator, in order, the plan position of
    /// the operator whose channel receiver the task takes.
    pub inputs: Vec<usize>,
    /// The plan position of the operator whose channel the task reads: the
    /// last dependency for a transform or a sink, none for a source.
    pub read: Option<usize>,
}

/// The contents of a list of strings.
pub open spec fn strs(v: Seq<&String>) -> Seq<Seq<char>> {
    v.map_values(|s: &String| s@)
}

/// The contents of a list of owned strings.
pub open spec fn owned_strs(v: Seq<String>) -> Seq<Seq<char>> {
    v.map_values(|s: String| s@)
}

/// The dependency ids of one operator.
pub open spec fn op_deps(o: &Operator) -> Seq<Seq<char>> {
    owned_strs(o.depends@)
}

/// The dependency ids of the operators `0..m`, operator by operator.
pub open spec fn deps_upto(sorted: Seq<&Operator>, m: int) -> Seq<Seq<char>>
    decreases m,
{
    if m <= 0 {
        Seq::empty()
    } else {
        deps_upto(sorted, m - 1) + op_deps(sorted[m - 1])
    }
}

/// Every dependency id of every planned operator, operator by operator.
pub open spec fn all_deps(sorted: Seq<&Operator>) -> Seq<Seq<char>> {
    deps_upto(sorted, sorted.len() as int)
}

/// The engine can wire the planned operators, given the names of the
/// registered UDFs, without a missing UDF, channel or input:
/// operator ids are distinct (one output channel each), every operator's UDF
/// is registered and no two operators share one (each UDF is handed out
/// once), every dependency is the id of a planned operator and no channel is
/// depended on twice (each receiver is handed out once), and every transform
/// and sink has a dependency to read.
pub open spec fn can_wire(sorted: Seq<&Operator>, names: Seq<Seq<char>>) -> bool {
    &&& op_ids(sorted).no_duplicates()
    &&& op_udfs(sorted).no_duplicates()
    &&& forall|a: int| 0 <= a < sorted.len() ==> names.contains(#[trigger] op_udfs(sorted)[a])
    &&& forall|a: int, k: int|
        0 <= a < sorted.len() && 0 <= k < sorted[a].depends@.len() ==> op_ids(sorted).contains(
            #[trigger] op_deps(sorted[a])[k],
        )
    &&& all_deps(sorted).no_duplicates()
    &&& forall|a: int|
        0 <= a < sorted.len() ==> (#[trigger] sorted[a].kind is Source || sorted[a].depends@.len()
            > 0)
}

/// `w` is the wiring of the task of the planned operator at position `a`.
pub open spec fn wires(sorted: Seq<&Operator>, names: Seq<Seq<char>>, a: int, w: TaskWiring) -> bool {
    &&& w.udf == last_index(names, sorted[a].udf_name@)
    &&& w.inputs@.len() == sorted[a].depends@.len()
    &&& forall|k: int|
        0 <= k < w.inputs@.len() ==> #[trigger] w.inputs@[k] == last_index(
            op_ids(sorted),
            op_deps(sorted[a])[k],
        )
    &&& w.read == if sorted[a].kind is Source {
        None::<usize>
    } else {
        Some(w.inputs@.last())
    }
}

proof fn lemma_deps_upto_len(sorted: Seq<&Operator>, m: int, n: int)
    requires
        0 <= m <= n,
    ensures
        deps_upto(sorted, m).len() <= deps_upto(sorted, n).len(),
    decreases n - m,
{
    if m < n {
        lemma_deps_upto_len(sorted, m, n - 1);
    }
}

/// Dependency `k` of operator `a` stands at offset `deps_upto(a).len() + k`
/// of the dependencies of the operators `0..m`, for every `m` past `a`.
proof fn lemma_deps_upto_index(sorted: Seq<&Operator>, a: int, k: int, m: int)
    requires
        0 <= a < m,
        0 <= k < op_deps(sorted[a]).len(),
    ensures
        deps_upto(sorted, a).len() + k < deps_upto(sorted, m).len(),
        deps_upto(sorted, m)[deps_upto(sorted, a).len() + k] == op_deps(sorted[a])[k],
    decreases m,
{
    if a < m - 1 {
        lemma_deps_upto_index(sorted, a, k, m - 1);
    }
}

proof fn lemma_last_index_distinct(s: Seq<Seq<char>>, x: Seq<char>, y: Seq<char>)
    requires
        s.contains(x),
        s.contains(y),
        x != y,
    ensures
        last_index(s, x) != last_index(s, y),
        0 <= last_index(s, x),
{
    let i = choose|i: int| 0 <= i < s.len() && s[i] == x;
    lemma_last_index_found(s, x, i);
    let j = choose|j: int| 0 <= j < s.len() && s[j] == y;
    lemma_last_index_found(s, y, j);
}

/// With wiring that `can_wire` allows, no two tasks run the same UDF and no
/// channel receiver is handed to two tasks, or twice to one task.
pub proof fn lemma_each_udf_and_receiver_handed_out_once(
    sorted: Seq<&Operator>,
    names: Seq<Seq<char>>,
    wiring: Seq<TaskWiring>,
    a: int,
    k: int,
    b: int,
    l: int,
)
    requires
        can_wire(sorted, names),
        wiring.len() == sorted.len(),
        forall|t: int| 0 <= t < sorted.len() ==> wires(sorted, names, t, #[trigger] wiring[t]),
        0 <= a < sorted.len(),
        0 <= b < sorted.len(),
    ensures
        a != b ==> wiring[a].udf != wiring[b].udf,
        0 <= k < wiring[a].inputs@.len() && 0 <= l < wiring[b].inputs@.len() && (a, k) != (b, l)
            ==> wiring[a].inputs@[k] != wiring[b].inputs@[l],
{
    assert(wires(sorted, names, a, wiring[a]));
    assert(wires(sorted, names, b, wiring[b]));
    if a != b {
        assert(op_udfs(sorted)[a] == sorted[a].udf_name@);
        assert(op_udfs(sorted)[b] == sorted[b].udf_name@);
        assert(names.contains(op_udfs(sorted)[a]));
        assert(names.contains(op_udfs(sorted)[b]));
        lemma_last_index_distinct(names, sorted[a].udf_name@, sorted[b].udf_name@);
    }
    if 0 <= k < wiring[a].inputs@.len() && 0 <= l < wiring[b].inputs@.len() && (a, k) != (b, l) {
        let n = sorted.len() as int;
        let x = op_deps(sorted[a])[k];
        let y = op_deps(sorted[b])[l];
        lemma_deps_upto_index(sorted, a, k, n);
        lemma_deps_upto_index(sorted, b, l, n);
        let i = deps_upto(sorted, a).len() + k;
        let j = deps_upto(sorted, b).len() + l;
        if a < b {
            lemma_deps_upto_index(sorted, a, k, a + 1);
            lemma_deps_upto_len(sorted, a + 1, b);
        } else if b < a {
            lemma_deps_upto_index(sorted, b, l, b + 1);
            lemma_deps_upto_len(sorted, b + 1, a);
        }
        assert(i != j);
        assert(all_deps(sorted)[i] == x);
        assert(all_deps(sorted)[j] == y);
        assert(x != y);
        assert(op_ids(sorted).contains(op_deps(sorted[a])[k]));
        assert(op_ids(sorted).contains(op_deps(sorted[b])[l]));
        lemma_last_index_distinct(op_ids(sorted), x, y);
    }
}

/// Distinct dependency slots sit at distinct offsets of the flattened
/// dependencies.
proof fn lemma_deps_offsets_distinct(sorted: Seq<&Operator>, a: int, k: int, b: int, l: int)
    requires
        0 <= a < sorted.len(),
        0 <= b < sorted.len(),
        0 <= k < op_deps(sorted[a]).len(),
        0 <= l < op_deps(sorted[b]).len(),
        (a, k) != (b, l),
    ensures
        deps_upto(sorted, a).len() + k != deps_upto(sorted, b).len() + l,
{
    if a < b {
        lemma_deps_upto_index(sorted, a, k, a + 1);
        lemma_deps_upto_len(sorted, a + 1, b);
    } else if b < a {
        lemma_deps_upto_index(sorted, b, l, b + 1);
        lemma_deps_upto_len(sorted, b + 1, a);
    }
}

/// Every offset of the dependencies of the operators `0..m` is a dependency
/// slot of one of them.
proof fn lemma_deps_upto_locate(sorted: Seq<&Operator>, m: int, i: int) -> (ak: (int, int))
    requires
        0 <= m <= sorted.len(),
        0 <= i < deps_upto(sorted, m).len(),
    ensures
        0 <= ak.0 < m,
        0 <= ak.1 < op_deps(sorted[ak.0]).len(),
        i == deps_upto(sorted, ak.0).len() + ak.1,
    decreases m,
{
    if i < deps_upto(sorted, m - 1).len() {
        lemma_deps_upto_locate(sorted, m - 1, i)
    } else {
        (m - 1, i - deps_upto(sorted, m - 1).len())
    }
}

/// The planned operators' ids are pairwise distinct.
pub open spec fn ids_pairwise_distinct(sorted: Seq<&Operator>) -> bool {
    forall|a: int, b: int|
        0 <= a < b < sorted.len() ==> #[trigger] sorted[a].id@ != #[trigger] sorted[b].id@
}

/// The planned operators' UDF names are pairwise distinct.
pub open spec fn udf_names_pairwise_distinct(sorted: Seq<&Operator>) -> bool {
    forall|a: int, b: int|
        0 <= a < b < sorted.len() ==> #[trigger] sorted[a].udf_name@ != #[trigger] sorted[b].udf_name@
}

/// Every planned operator's UDF name is one of `names`.
pub open spec fn udfs_registered(sorted: Seq<&Operator>, names: Seq<Seq<char>>) -> bool {
    forall|a: int|
        #![trigger sorted[a].udf_name]
        0 <= a < sorted.len() ==> exists|i: int|
            0 <= i < names.len() && #[trigger] names[i] == sorted[a].udf_name@
}

/// Every dependency of every planned operator is the id of a planned operator.
pub open spec fn deps_name_operators(sorted: Seq<&Operator>) -> bool {
    forall|a: int, k: int|
        #![trigger sorted[a].depends@[k]]
        0 <= a < sorted.len() && 0 <= k < sorted[a].depends@.len() ==> exists|b: int|
            0 <= b < sorted.len() && #[trigger] sorted[b].id@ == sorted[a].depends@[k]@
}

/// No two dependency slots, of one planned operator or of two, hold the
/// same id.
pub open spec fn no_id_depended_on_twice(sorted: Seq<&Operator>) -> bool {
    forall|a: int, k: int, b: int, l: int|
        0 <= a < sorted.len() && 0 <= b < sorted.len() && 0 <= k < sorted[a].depends@.len() && 0 <= l
            < sorted[b].depends@.len() && (a, k) != (b, l) ==> #[trigger] sorted[a].depends@[k]@
            != #[trigger] sorted[b].depends@[l]@
}

/// Every planned operator that is not a source has a dependency.
pub open spec fn consumers_have_input(sorted: Seq<&Operator>) -> bool {
    forall|a: int|
        0 <= a < sorted.len() ==> (#[trigger] sorted[a].kind is Source || sorted[a].depends@.len() > 0)
}

/// Distinct ids, elementwise.
proof fn lemma_ids_distinct_iff(sorted: Seq<&Operator>)
    ensures
        op_ids(sorted).no_duplicates() <==> ids_pairwise_distinct(sorted),
{
    let n = sorted.len() as int;
    let ids = op_ids(sorted);
    let udfs = op_udfs(sorted);
    let flat = all_deps(sorted);

        if ids.no_duplicates() {
            assert forall|a: int, b: int| 0 <= a < b < n implies #[trigger] sorted[a].id@
                != #[trigger] sorted[b].id@ by {
                assert(ids[a] != ids[b]);
            }
        }
        if forall|a: int, b: int| 0 <= a < b < n ==> #[trigger] sorted[a].id@ != #[trigger] sorted[b].id@ {
            assert forall|a: int, b: int| 0 <= a < n && 0 <= b < n && a != b implies ids[a]
                != ids[b] by {
                if a < b {
                    assert(sorted[a].id@ != sorted[b].id@);
                } else {
                    assert(sorted[b].id@ != sorted[a].id@);
                }
            }
        }
    }

/// Distinct UDF names, elementwise.
proof fn lemma_udfs_distinct_iff(sorted: Seq<&Operator>)
    ensures
        op_udfs(sorted).no_duplicates() <==> udf_names_pairwise_distinct(sorted),
{
    let n = sorted.len() as int;
    let ids = op_ids(sorted);
    let udfs = op_udfs(sorted);
    let flat = all_deps(sorted);

        if udfs.no_duplicates() {
            assert forall|a: int, b: int| 0 <= a < b < n implies #[trigger] sorted[a].udf_name@
                != #[trigger] sorted[b].udf_name@ by {
                assert(udfs[a] != udfs[b]);
            }
        }
        if forall|a: int, b: int|
            0 <= a < b < n ==> #[trigger] sorted[a].udf_name@ != #[trigger] sorted[b].udf_name@ {
            assert forall|a: int, b: int| 0 <= a < n && 0 <= b < n && a != b implies udfs[a]
                != udfs[b] by {
                if a < b {
                    assert(sorted[a].udf_name@ != sorted[b].udf_name@);
                } else {
                    assert(sorted[b].udf_name@ != sorted[a].udf_name@);
                }
            }
        }
    }

proof fn lemma_dep_named_at(sorted: Seq<&Operator>, a: int, k: int)
    requires
        0 <= a < sorted.len(),
        0 <= k < sorted[a].depends@.len(),
    ensures
        op_ids(sorted).contains(op_deps(sorted[a])[k]) <==> exists|b: int|
            0 <= b < sorted.len() && #[trigger] sorted[b].id@ == sorted[a].depends@[k]@,
{
    let ids = op_ids(sorted);
    assert(op_deps(sorted[a])[k] == sorted[a].depends@[k]@);
    if ids.contains(op_deps(sorted[a])[k]) {
        let b = choose|b: int| 0 <= b < ids.len() && ids[b] == op_deps(sorted[a])[k];
        assert(sorted[b].id@ == sorted[a].depends@[k]@);
    }
    if exists|b: int| 0 <= b < sorted.len() && #[trigger] sorted[b].id@ == sorted[a].depends@[k]@ {
        let b = choose|b: int| 0 <= b < sorted.len() && #[trigger] sorted[b].id@ == sorted[a].depends@[k]@;
        assert(ids[b] == op_deps(sorted[a])[k]);
    }
}

/// Every dependency is a planned id, elementwise.
proof fn lemma_deps_named_iff(sorted: Seq<&Operator>)
    ensures
        (forall|a: int, k: int|
            0 <= a < sorted.len() && 0 <= k < sorted[a].depends@.len() ==> op_ids(sorted).contains(
                #[trigger] op_deps(sorted[a])[k],
            )) <==> deps_name_operators(sorted),
{
    if forall|a: int, k: int|
        0 <= a < sorted.len() && 0 <= k < sorted[a].depends@.len() ==> op_ids(sorted).contains(
            #[trigger] op_deps(sorted[a])[k],
        ) {
        assert forall|a: int, k: int|
            #![trigger sorted[a].depends@[k]]
            0 <= a < sorted.len() && 0 <= k < sorted[a].depends@.len() implies exists|b: int|
                0 <= b < sorted.len() && #[trigger] sorted[b].id@ == sorted[a].depends@[k]@ by {
            lemma_dep_named_at(sorted, a, k);
            assert(op_ids(sorted).contains(op_deps(sorted[a])[k]));
        }
    }
    if forall|a: int, k: int|
        #![trigger sorted[a].depends@[k]]
        0 <= a < sorted.len() && 0 <= k < sorted[a].depends@.len() ==> exists|b: int|
            0 <= b < sorted.len() && #[trigger] sorted[b].id@ == sorted[a].depends@[k]@ {
        assert forall|a: int, k: int|
            0 <= a < sorted.len() && 0 <= k < sorted[a].depends@.len() implies op_ids(sorted).contains(
                #[trigger] op_deps(sorted[a])[k],
            ) by {
            lemma_dep_named_at(sorted, a, k);
            assert(sorted[a].depends@[k] == sorted[a].depends@[k]);
        }
    }
}

/// Every operator's UDF is a registered name, elementwise.
proof fn lemma_udfs_registered_iff(sorted: Seq<&Operator>, names: Seq<Seq<char>>)
    ensures
        (forall|a: int| 0 <= a < sorted.len() ==> names.contains(#[trigger] op_udfs(sorted)[a]))
            <==> udfs_registered(sorted, names),
{
    let udfs = op_udfs(sorted);
    if forall|a: int| 0 <= a < sorted.len() ==> names.contains(#[trigger] udfs[a]) {
        assert forall|a: int|
            #![trigger sorted[a].udf_name]
            0 <= a < sorted.len() implies exists|i: int|
                0 <= i < names.len() && #[trigger] names[i] == sorted[a].udf_name@ by {
            assert(names.contains(udfs[a]));
            let i = choose|i: int| 0 <= i < names.len() && names[i] == udfs[a];
            assert(names[i] == sorted[a].udf_name@);
        }
    }
    if forall|a: int|
        #![trigger sorted[a].udf_name]
        0 <= a < sorted.len() ==> exists|i: int|
            0 <= i < names.len() && #[trigger] names[i] == sorted[a].udf_name@ {
        assert forall|a: int| 0 <= a < sorted.len() implies names.contains(#[trigger] udfs[a]) by {
            assert(sorted[a].udf_name == sorted[a].udf_name);
            let i = choose|i: int| 0 <= i < names.len() && #[trigger] names[i] == sorted[a].udf_name@;
            assert(names[i] == udfs[a]);
        }
    }
}

/// No two dependency slots name one operator, elementwise.
proof fn lemma_deps_distinct_iff(sorted: Seq<&Operator>)
    ensures
        all_deps(sorted).no_duplicates() <==> no_id_depended_on_twice(sorted),
{
    let n = sorted.len() as int;
    let ids = op_ids(sorted);
    let udfs = op_udfs(sorted);
    let flat = all_deps(sorted);

        if flat.no_duplicates() {
            assert forall|a: int, k: int, b: int, l: int|
                0 <= a < n && 0 <= b < n && 0 <= k < sorted[a].depends@.len() && 0 <= l
                    < sorted[b].depends@.len() && (a, k) != (b, l) implies #[trigger] sorted[a].depends@[k]@
                != #[trigger] sorted[b].depends@[l]@ by {
                lemma_deps_upto_index(sorted, a, k, n);
                lemma_deps_upto_index(sorted, b, l, n);
                lemma_deps_offsets_distinct(sorted, a, k, b, l);
                let i = deps_upto(sorted, a).len() + k;
                let j = deps_upto(sorted, b).len() + l;
                assert(flat[i] != flat[j]);
            }
        }
        if forall|a: int, k: int, b: int, l: int|
            0 <= a < n && 0 <= b < n && 0 <= k < sorted[a].depends@.len() && 0 <= l
                < sorted[b].depends@.len() && (a, k) != (b, l) ==> #[trigger] sorted[a].depends@[k]@
                != #[trigger] sorted[b].depends@[l]@ {
            assert forall|i: int, j: int| 0 <= i < flat.len() && 0 <= j < flat.len() && i != j implies flat[i]
                != flat[j] by {
                let (a, k) = lemma_deps_upto_locate(sorted, n, i);
                let (b, l) = lemma_deps_upto_locate(sorted, n, j);
                lemma_deps_upto_index(sorted, a, k, n);
                lemma_deps_upto_index(sorted, b, l, n);
                assert(sorted[a].depends@[k]@ != sorted[b].depends@[l]@);
            }
        }
    }

/// The engine can wire the planned operators exactly when their ids are
/// pairwise distinct, their UDF names are pairwise distinct and each is a
/// registered name, every dependency is the id of a planned operator, no two
/// dependency slots (of one operator or of two) name the same operator, and
/// every operator that is not a source has a dependency. Nothing else counts:
/// in particular not the kinds of the operators depended on.
pub proof fn lemma_can_wire_exactly_when(sorted: Seq<&Operator>, names: Seq<Seq<char>>)
    ensures
        can_wire(sorted, names) <==> {
            &&& ids_pairwise_distinct(sorted)
            &&& udf_names_pairwise_distinct(sorted)
            &&& udfs_registered(sorted, names)
            &&& deps_name_operators(sorted)
            &&& no_id_depended_on_twice(sorted)
            &&& consumers_have_input(sorted)
        },
{
    let n = sorted.len() as int;
    let ids = op_ids(sorted);
    let udfs = op_udfs(sorted);
    let flat = all_deps(sorted);
    lemma_ids_distinct_iff(sorted);
    lemma_udfs_distinct_iff(sorted);
    lemma_udfs_registered_iff(sorted, names);
    lemma_deps_named_iff(sorted);
    lemma_deps_distinct_iff(sorted);
}

/// With the wiring of `task_wiring`, a source reads no channel, and every
/// other operator (transform or sink alike) reads the channel of the planned
/// operator whose id is its last dependency; its `k`-th input is the channel
/// of the planned operator whose id is its `k`-th dependency. Its UDF is the
/// last registration with the operator's UDF name.
pub proof fn lemma_tasks_read_their_last_dependency(
    sorted: Seq<&Operator>,
    names: Seq<Seq<char>>,
    wiring: Seq<TaskWiring>,
    a: int,
)
    requires
        can_wire(sorted, names),
        wiring.len() == sorted.len(),
        forall|t: int| 0 <= t < sorted.len() ==> wires(sorted, names, t, #[trigger] wiring[t]),
        0 <= a < sorted.len(),
    ensures
        sorted[a].kind is Source ==> wiring[a].read is None,
        !(sorted[a].kind is Source) ==> (wiring[a].read matches Some(b) && 0 <= b < sorted.len()
            && sorted[b as int].id@ == sorted[a].depends@.last()@),
        forall|k: int|
            0 <= k < sorted[a].depends@.len() ==> 0 <= #[trigger] wiring[a].inputs@[k] < sorted.len()
                && sorted[wiring[a].inputs@[k] as int].id@ == sorted[a].depends@[k]@,
        0 <= wiring[a].udf < names.len(),
        names[wiring[a].udf as int] == sorted[a].udf_name@,
        forall|i: int| wiring[a].udf < i < names.len() ==> #[trigger] names[i] != sorted[a].udf_name@,
{
    assert(wires(sorted, names, a, wiring[a]));
    assert(op_udfs(sorted)[a] == sorted[a].udf_name@);
    assert(names.contains(op_udfs(sorted)[a]));
    let u = choose|i: int| 0 <= i < names.len() && names[i] == sorted[a].udf_name@;
    lemma_last_index_found(names, sorted[a].udf_name@, u);
    assert forall|k: int| 0 <= k < sorted[a].depends@.len() implies 0 <= #[trigger] wiring[a].inputs@[k]
        < sorted.len() && sorted[wiring[a].inputs@[k] as int].id@ == sorted[a].depends@[k]@ by {
        let d = op_deps(sorted[a])[k];
        assert(d == sorted[a].depends@[k]@);
        assert(op_ids(sorted).contains(d));
        let i = choose|i: int| 0 <= i < op_ids(sorted).len() && op_ids(sorted)[i] == d;
        lemma_last_index_found(op_ids(sorted), d, i);
    }
    if !(sorted[a].kind is Source) {
        let last = sorted[a].depends@.len() - 1;
        assert(wiring[a].inputs@.last() == wiring[a].inputs@[last]);
    }
}

/// The last position of `x` among `v`.
fn last_position(v: &Vec<&String>, x: &String) -> (r: Option<usize>)
    ensures
        r matches Some(i) ==> i == last_index(strs(v@), x@) && is_last_index(strs(v@), x@, i as int),
        r is None ==> last_index(strs(v@), x@) == -1 && !strs(v@).contains(x@),
{
    let mut i = v.len();
    while i > 0
        invariant
            i <= v@.len(),
            forall|k: int| i <= k < v@.len() ==> #[trigger] strs(v@)[k] != x@,
        decreases i,
    {
        i = i - 1;
        if v[i].eq(x) {
            proof {
                lemma_last_index_is(strs(v@), x@, i as int);
            }
            return Some(i);
        }
    }
    None
}

/// Whether the strings of `v` are pairwise distinct.
fn all_distinct(v: &Vec<&String>) -> (r: bool)
    ensures
        r == strs(v@).no_duplicates(),
{
    let n = v.len();
    let mut i: usize = 0;
    while i < n
        invariant
            i <= n,
            n == v@.len(),
            forall|p: int, q: int| 0 <= p < q < i ==> strs(v@)[p] != strs(v@)[q],
        decreases n - i,
    {
        let mut j: usize = 0;
        while j < i
            invariant
                j <= i < n,
                n == v@.len(),
                forall|p: int, q: int| 0 <= p < q < i ==> strs(v@)[p] != strs(v@)[q],
                forall|p: int| 0 <= p < j ==> strs(v@)[p] != strs(v@)[i as int],
            decreases i - j,
        {
            if v[j].eq(v[i]) {
                assert(strs(v@)[j as int] == strs(v@)[i as int]);
                return false;
            }
            j = j + 1;
        }
        i = i + 1;
    }
    assert forall|p: int, q: int| 0 <= p < n && 0 <= q < n && p != q implies strs(v@)[p] != strs(
        v@,
    )[q] by {
        if q < p {
            assert(strs(v@)[q] != strs(v@)[p]);
        }
    }
    true
}

/// The ids of the planned operators.
fn ids_of<'a>(sorted: &Vec<&'a Operator>) -> (r: Vec<&'a String>)
    ensures
        strs(r@) == op_ids(sorted@),
{
    let mut r: Vec<&'a String> = Vec::new();
    for a in 0..sorted.len()
        invariant
            strs(r@) == op_ids(sorted@.take(a as int)),
    {
        r.push(&sorted[a].id);
        assert(op_ids(sorted@.take(a + 1)) =~= op_ids(sorted@.take(a as int)).push(sorted@[a as int].id@));
        assert(strs(r@) =~= strs(r@.drop_last()).push(r@.last()@));
    }
    assert(sorted@.take(sorted@.len() as int) =~= sorted@);
    r
}

/// The UDF names of the planned operators.
fn udfs_of<'a>(sorted: &Vec<&'a Operator>) -> (r: Vec<&'a String>)
    ensures
        strs(r@) == op_udfs(sorted@),
{
    let mut r: Vec<&'a String> = Vec::new();
    for a in 0..sorted.len()
        invariant
            strs(r@) == op_udfs(sorted@.take(a as int)),
    {
        r.push(&sorted[a].udf_name);
        assert(op_udfs(sorted@.take(a + 1)) =~= op_udfs(sorted@.take(a as int)).push(
            sorted@[a as int].udf_name@,
        ));
        assert(strs(r@) =~= strs(r@.drop_last()).push(r@.last()@));
    }
    assert(sorted@.take(sorted@.len() as int) =~= sorted@);
    r
}

/// References to the given strings.
fn refs_of(names: &Vec<String>) -> (r: Vec<&String>)
    ensures
        strs(r@) == owned_strs(names@),
{
    let mut r: Vec<&String> = Vec::new();
    for i in 0..names.len()
        invariant
            strs(r@) == owned_strs(names@.take(i as int)),
    {
        r.push(&names[i]);
        assert(owned_strs(names@.take(i + 1)) =~= owned_strs(names@.take(i as int)).push(
            names@[i as int]@,
        ));
        assert(strs(r@) =~= strs(r@.drop_last()).push(r@.last()@));
    }
    assert(names@.take(names@.len() as int) =~= names@);
    r
}

/// The dependency ids of all planned operators, operator by operator.
fn deps_of<'a>(sorted: &Vec<&'a Operator>) -> (r: Vec<&'a String>)
    ensures
        strs(r@) == all_deps(sorted@),
{
    let mut r: Vec<&'a String> = Vec::new();
    for a in 0..sorted.len()
        invariant
            strs(r@) == deps_upto(sorted@, a as int),
    {
        let op: &'a Operator = sorted[a];
        for k in 0..op.depends.len()
            invariant
                op == sorted@[a as int],
                strs(r@) == deps_upto(sorted@, a as int) + op_deps(op).take(k as int),
        {
            let ghost prev = r@;
            r.push(&op.depends[k]);
            assert(strs(r@) =~= strs(prev).push(op.depends@[k as int]@));
            assert(op_deps(op).take(k + 1) =~= op_deps(op).take(k as int).push(op.depends@[k as int]@));
            assert(deps_upto(sorted@, a as int) + op_deps(op).take(k + 1) =~= (deps_upto(
                sorted@,
                a as int,
            ) + op_deps(op).take(k as int)).push(op.depends@[k as int]@));
        }
        assert(op_deps(op).take(op.depends@.len() as int) =~= op_deps(op));
    }
    r
}

impl Engine {
    pub fn new() -> (r: Self)
        ensures
            r == (Engine {  }),
    {
        Engine {  }
    }

    /// The next step of the task of an operator of the given kind, after the
    /// given event.
    pub fn next_action(kind: &OperatorKind, event: TaskEvent) -> (r: TaskAction)
        ensures
            r == task_action(*kind, event),
    {
        match event {
            TaskEvent::Batch => match kind {
                OperatorKind::Sink { .. } => TaskAction::Execute,
                _ => TaskAction::ExecuteAndSend,
            },
            TaskEvent::End => TaskAction::Stop,
            TaskEvent::Sent => TaskAction::Continue,
            TaskEvent::SendFailed => match kind {
                OperatorKind::Source { .. } => TaskAction::StopReportingClosedChannel,
                _ => TaskAction::Stop,
            },
        }
    }

    /// Whether the planned operators can be wired with the registered UDFs
    /// without running out of a UDF, a channel or an input.
    pub fn can_wire(&self, sorted: &Vec<&Operator>, names: &Vec<String>) -> (r: bool)
        ensures
            r == can_wire(sorted@, owned_strs(names@)),
    {
        let ghost names_v = owned_strs(names@);
        let n = sorted.len();
        let ids = ids_of(sorted);
        if !all_distinct(&ids) {
            return false;
        }
        let udfs = udfs_of(sorted);
        if !all_distinct(&udfs) {
            return false;
        }
        let name_refs = refs_of(names);
        for a in 0..n
            invariant
                n == sorted@.len(),
                strs(name_refs@) == names_v,
                names_v == owned_strs(names@),
                forall|b: int| 0 <= b < a ==> names_v.contains(#[trigger] op_udfs(sorted@)[b]),
        {
            assert(op_udfs(sorted@)[a as int] == sorted@[a as int].udf_name@);
            match last_position(&name_refs, &sorted[a].udf_name) {
                Some(i) => {
                    assert(names_v[i as int] == op_udfs(sorted@)[a as int]);
                },
                None => {
                    assert(!names_v.contains(op_udfs(sorted@)[a as int]));
                    return false;
                },
            }
        }
        for a in 0..n
            invariant
                n == sorted@.len(),
                strs(ids@) == op_ids(sorted@),
                forall|b: int, k: int|
                    0 <= b < a && 0 <= k < sorted@[b].depends@.len() ==> op_ids(sorted@).contains(
                        #[trigger] op_deps(sorted@[b])[k],
                    ),
        {
            let op = sorted[a];
            for k in 0..op.depends.len()
                invariant
                    n == sorted@.len(),
                    a < n,
                    op == sorted@[a as int],
                    strs(ids@) == op_ids(sorted@),
                    forall|b: int, t: int|
                        0 <= b < a && 0 <= t < sorted@[b].depends@.len() ==> op_ids(
                            sorted@,
                        ).contains(#[trigger] op_deps(sorted@[b])[t]),
                    forall|t: int|
                        0 <= t < k ==> op_ids(sorted@).contains(#[trigger] op_deps(op)[t]),
            {
                assert(op_deps(op)[k as int] == op.depends@[k as int]@);
                match last_position(&ids, &op.depends[k]) {
                    Some(i) => {
                        assert(op_ids(sorted@)[i as int] == op_deps(op)[k as int]);
                    },
                    None => {
                        return false;
                    },
                }
            }
        }
        let flat = deps_of(sorted);
        if !all_distinct(&flat) {
            return false;
        }
        for a in 0..n
            invariant
                n == sorted@.len(),
                forall|b: int|
                    0 <= b < a ==> (#[trigger] sorted@[b].kind is Source
                        || sorted@[b].depends@.len() > 0),
        {
            match &sorted[a].kind {
                OperatorKind::Source { .. } => {},
                _ => {
                    if sorted[a].depends.len() == 0 {
                        return false;
                    }
                },
            }
        }
        true
    }

    /// The wiring of the task of each planned operator, in plan order: the
    /// last registered UDF with the operator's UDF name, the receivers of
    /// the channels of its dependencies, and, for a transform or a sink, the
    /// channel of its last dependency to read.
    pub fn task_wiring(&self, sorted: &Vec<&Operator>, names: &Vec<String>) -> (r: Vec<TaskWiring>)
        requires
            can_wire(sorted@, owned_strs(names@)),
        ensures
            r@.len() == sorted@.len(),
            forall|a: int| 0 <= a < sorted@.len() ==> wires(sorted@, owned_strs(names@), a, #[trigger] r@[a]),
    {
        let ghost names_v = owned_strs(names@);
        let n = sorted.len();
        let ids = ids_of(sorted);
        let name_refs = refs_of(names);
        let mut r: Vec<TaskWiring> = Vec::new();
        for a in 0..n
            invariant
                n == sorted@.len(),
                names_v == owned_strs(names@),
                can_wire(sorted@, names_v),
                strs(ids@) == op_ids(sorted@),
                strs(name_refs@) == names_v,
                r@.len() == a,
                forall|b: int| 0 <= b < a ==> wires(sorted@, names_v, b, #[trigger] r@[b]),
        {
            let op = sorted[a];
            assert(op_udfs(sorted@)[a as int] == op.udf_name@);
            let udf = last_position(&name_refs, &op.udf_name).unwrap();
            let mut inputs: Vec<usize> = Vec::new();
            for k in 0..op.depends.len()
                invariant
                    a < n,
                    n == sorted@.len(),
                    op == sorted@[a as int],
                    can_wire(sorted@, names_v),
                    strs(ids@) == op_ids(sorted@),
                    inputs@.len() == k,
                    forall|t: int|
                        0 <= t < k ==> #[trigger] inputs@[t] == last_index(
                            op_ids(sorted@),
                            op_deps(op)[t],
                        ),
            {
                assert(op_deps(op)[k as int] == op.depends@[k as int]@);
                assert(op_ids(sorted@).contains(op_deps(sorted@[a as int])[k as int]));
                let p = last_position(&ids, &op.depends[k]).unwrap();
                inputs.push(p);
            }
            let read = match &op.kind {
                OperatorKind::Source { .. } => None,
                _ => {
                    assert(op.depends@.len() > 0);
                    Some(inputs[inputs.len() - 1])
                },
            };
            let w = TaskWiring { udf, inputs, read };
            r.push(w);
            assert(wires(sorted@, names_v, a as int, r@[a as int]));
        }
        r
    }
}

} // verus!
