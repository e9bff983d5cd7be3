//! A client-held transaction.
//!
//! The writes of an open transaction are buffered, not applied: a database transaction held open
//! across round trips would pin the shard's writer. They are applied at `COMMIT`, as one atomic
//! batch. A transaction that is abandoned simply vanishes. Reads inside one are refused, since they
//! could not see its writes.

use vstd::prelude::*;
use vstd::utf8::encode_utf8;

use super::protocol::{statements_model, Request, RequestModel, Response, ResponseModel};
use crate::calls::{goes_on, lemma_added, since, Line};
use crate::keyword::{first_keyword, keyword};
use crate::storage::exec::{Datum, row_view, DbStatement, StatementModel, DbValue};
use crate::text::{decimal, push_decimal, same};

verus! {

/// The most statements that one transaction may buffer.
pub const MAX_TXN_STATEMENTS: usize = 100_000;

/// The most bytes that one transaction may buffer.
pub const MAX_TXN_BYTES: usize = 67_108_864;

/// An open transaction: its shard, and the writes buffered for `COMMIT`.
#[derive(Debug)]
pub struct Txn {
    shard: u32,
    staged: Vec<DbStatement>,
    bytes: usize,
}

/// What a [`Txn`] holds.
pub ghost struct TxnModel {
    pub shard: u32,
    pub staged: Seq<StatementModel>,
}

/// The bytes that a value counts for.
pub open spec fn value_size(v: Datum) -> nat {
    match v {
        Datum::Text(s) => encode_utf8(s).len(),
        Datum::Blob(b) => b.len(),
        _ => 8,
    }
}

pub open spec fn values_size(values: Seq<Datum>) -> nat
    decreases values.len(),
{
    if values.len() == 0 {
        0
    } else {
        values_size(values.drop_last()) + value_size(values.last())
    }
}

/// The bytes that a statement counts for: its text, and its text and blob parameters in full.
pub open spec fn size_of_statement(s: StatementModel) -> nat {
    encode_utf8(s.sql).len() + values_size(s.params)
}

pub open spec fn staged_size(staged: Seq<StatementModel>) -> nat
    decreases staged.len(),
{
    if staged.len() == 0 {
        0
    } else {
        staged_size(staged.drop_last()) + size_of_statement(staged.last())
    }
}

impl Txn {
    pub closed spec fn model(self) -> TxnModel {
        TxnModel { shard: self.shard, staged: statements_model(self.staged@) }
    }

    /// Whether the byte count is that of the buffer, and both bounds hold.
    pub closed spec fn wf(self) -> bool {
        &&& self.bytes == staged_size(statements_model(self.staged@))
        &&& self.bytes <= MAX_TXN_BYTES
        &&& self.staged@.len() <= MAX_TXN_STATEMENTS
    }
}

pub open spec fn txn_model(t: Option<Txn>) -> Option<TxnModel> {
    match t {
        Some(t) => Some(t.model()),
        None => None,
    }
}

pub open spec fn txn_wf(t: Option<Txn>) -> bool {
    match t {
        Some(t) => t.wf(),
        None => true,
    }
}

// ---- sizes -------------------------------------------------------------------------------------

/// A number, or the largest there is.
pub open spec fn capped(n: nat) -> usize {
    if n <= usize::MAX {
        n as usize
    } else {
        usize::MAX
    }
}

fn byte_len(s: &str) -> (r: usize)
    ensures
        r == encode_utf8(s@).len(),
{
    s.as_bytes().len()
}

/// A statement's footprint in memory, or the largest number there is.
pub fn statement_size(stmt: &DbStatement) -> (r: usize)
    ensures
        r == capped(size_of_statement(stmt@)),
{
    let ghost params = row_view(stmt.params@);
    let mut total: usize = 0;
    let mut i: usize = 0;
    while i < stmt.params.len()
        invariant
            i <= stmt.params@.len(),
            params == row_view(stmt.params@),
            total == capped(values_size(params.take(i as int))),
        decreases stmt.params@.len() - i,
    {
        proof {
            assert(params.take(i as int + 1).drop_last() =~= params.take(i as int));
            assert(params.take(i as int + 1).last() == stmt.params@[i as int]@);
        }
        let n: usize = match &stmt.params[i] {
            DbValue::Text(s) => byte_len(s.as_str()),
            DbValue::Blob(b) => b.len(),
            _ => 8,
        };
        total = total.saturating_add(n);
        i = i + 1;
    }
    assert(params.take(stmt.params@.len() as int) =~= params);
    byte_len(stmt.sql.as_str()).saturating_add(total)
}

// ---- one statement -----------------------------------------------------------------------------

/// A keyword of transaction control.
pub open spec fn txn_keyword(kw: Seq<char>) -> bool {
    kw == "BEGIN"@ || kw == "COMMIT"@ || kw == "END"@ || kw == "ROLLBACK"@ || kw == "SAVEPOINT"@
        || kw == "RELEASE"@
}

/// Whether a word is a keyword of transaction control.
pub fn is_txn_keyword(kw: &str) -> (r: bool)
    ensures
        r == txn_keyword(kw@),
{
    same(kw, "BEGIN") || same(kw, "COMMIT") || same(kw, "END") || same(kw, "ROLLBACK") || same(
        kw,
        "SAVEPOINT",
    ) || same(kw, "RELEASE")
}

pub open spec fn refusal(message: Seq<char>) -> ResponseModel {
    ResponseModel::Error { message, retryable: false }
}

/// A refusal that repeating the request does not change.
pub fn refuse(message: &str) -> (r: Response)
    ensures
        r@ == refusal(message@),
{
    Response::Error { message: message.to_owned(), retryable: false }
}

pub open spec fn read_refusal() -> Seq<char> {
    "reads are not supported inside a transaction: it buffers writes and applies them              atomically at COMMIT, so a read here could not see them. COMMIT first, or read              on a separate connection."@
}

pub open spec fn nested_refusal() -> Seq<char> {
    "a transaction is already open on this connection; nested transactions                          are not supported"@
}

pub open spec fn savepoint_refusal() -> Seq<char> {
    "savepoints are not supported: a buffered transaction is applied atomically                      at COMMIT, with no intermediate points to roll back to"@
}

pub open spec fn cross_shard_refusal(began: u32, shard: u32) -> Seq<char> {
    "a transaction is limited to one shard: it began on shard "@ + decimal(began as nat)
        + "                              but a statement targets shard "@ + decimal(shard as nat)
        + ". Cross-shard transactions                              are not atomic in this design and are refused rather than                              half-applied."@
}

pub open spec fn too_large_refusal() -> Seq<char> {
    "transaction too large; COMMIT or ROLLBACK and use smaller batches"@
}

/// What a statement does to the session: it leaves an answer and goes on, it ends the batch with
/// a refusal, or it needs a request to be carried out, whose answer stands for it.
pub ghost enum StepModel {
    Next { txn: Option<TxnModel>, answer: ResponseModel },
    Refuse { txn: Option<TxnModel>, answer: ResponseModel },
    Call { txn: Option<TxnModel>, request: RequestModel },
}

/// The effect of one statement on a session.
pub open spec fn statement_effect(txn: Option<TxnModel>, shard: u32, stmt: StatementModel) -> StepModel {
    let kw = keyword(stmt.sql);
    if kw == "BEGIN"@ {
        if txn is Some {
            StepModel::Refuse { txn, answer: refusal(nested_refusal()) }
        } else {
            StepModel::Next {
                txn: Some(TxnModel { shard, staged: Seq::empty() }),
                answer: ResponseModel::Done,
            }
        }
    } else if kw == "COMMIT"@ || kw == "END"@ {
        match txn {
            None => StepModel::Refuse {
                txn,
                answer: refusal("COMMIT without an open transaction"@),
            },
            Some(open) => if open.staged.len() == 0 {
                StepModel::Next {
                    txn: None,
                    answer: ResponseModel::Changed { rows_affected: 0, last_insert_rowid: 0 },
                }
            } else {
                StepModel::Call {
                    txn: None,
                    request: RequestModel::Transaction {
                        shard: open.shard,
                        statements: open.staged,
                    },
                }
            },
        }
    } else if kw == "ROLLBACK"@ {
        StepModel::Next { txn: None, answer: ResponseModel::Done }
    } else if kw == "SAVEPOINT"@ || kw == "RELEASE"@ {
        StepModel::Refuse { txn, answer: refusal(savepoint_refusal()) }
    } else {
        match txn {
            None => StepModel::Call {
                txn: None,
                request: RequestModel::Execute { shard, statements: seq![stmt] },
            },
            Some(open) => if open.shard != shard {
                StepModel::Refuse {
                    txn: None,
                    answer: refusal(cross_shard_refusal(open.shard, shard)),
                }
            } else if open.staged.len() >= MAX_TXN_STATEMENTS || staged_size(open.staged)
                + size_of_statement(stmt) > MAX_TXN_BYTES {
                StepModel::Refuse { txn, answer: refusal(too_large_refusal()) }
            } else {
                StepModel::Next {
                    txn: Some(TxnModel { staged: open.staged.push(stmt), ..open }),
                    answer: ResponseModel::Staged { queued: (open.staged.len() + 1) as u64 },
                }
            },
        }
    }
}

/// What a statement asks of its session.
#[derive(Debug)]
pub enum Step {
    Next(Response),
    Refuse(Response),
    Call(Request),
}

/// Whether a step and the session after it are the effect of a statement.
pub open spec fn step_is(effect: StepModel, after: Option<TxnModel>, step: Step) -> bool {
    match effect {
        StepModel::Next { txn, answer } => after == txn && (step matches Step::Next(r) && r@
            == answer),
        StepModel::Refuse { txn, answer } => after == txn && (step matches Step::Refuse(r) && r@
            == answer),
        StepModel::Call { txn, request } => after == txn && (step matches Step::Call(q)
            && q.model() == request),
    }
}

/// Applies one statement to a session.
pub fn statement_step(txn: &mut Option<Txn>, shard: u32, stmt: DbStatement) -> (r: Step)
    requires
        txn_wf(*old(txn)),
    ensures
        txn_wf(*final(txn)),
        step_is(
            statement_effect(txn_model(*old(txn)), shard, stmt@),
            txn_model(*final(txn)),
            r,
        ),
{
    let word = first_keyword(stmt.sql.as_str());
    let kw = word.as_str();
    if same(kw, "BEGIN") {
        if txn.is_some() {
            return Step::Refuse(
                refuse("a transaction is already open on this connection; nested transactions                          are not supported"),
            );
        }
        let fresh = Txn { shard, staged: Vec::new(), bytes: 0 };
        assert(fresh.model().staged =~= Seq::empty());
        *txn = Some(fresh);
        return Step::Next(Response::Done);
    }
    if same(kw, "COMMIT") || same(kw, "END") {
        return match txn.take() {
            None => Step::Refuse(refuse("COMMIT without an open transaction")),
            Some(open) => {
                assert(open.model().staged.len() == open.staged@.len());
                if open.staged.len() == 0 {
                    Step::Next(Response::Changed { rows_affected: 0, last_insert_rowid: 0 })
                } else {
                    Step::Call(
                        Request::Transaction { shard: open.shard, statements: open.staged },
                    )
                }
            },
        };
    }
    if same(kw, "ROLLBACK") {
        *txn = None;
        return Step::Next(Response::Done);
    }
    if same(kw, "SAVEPOINT") || same(kw, "RELEASE") {
        return Step::Refuse(
            refuse("savepoints are not supported: a buffered transaction is applied atomically                      at COMMIT, with no intermediate points to roll back to"),
        );
    }
    match txn.take() {
        None => {
            let mut one: Vec<DbStatement> = Vec::new();
            let ghost model = stmt@;
            one.push(stmt);
            assert(statements_model(one@) =~= seq![model]);
            Step::Call(Request::Execute { shard, statements: one })
        },
        Some(mut open) => {
            if open.shard != shard {
                let mut m = "a transaction is limited to one shard: it began on shard ".to_owned();
                push_decimal(&mut m, open.shard as u64);
                m.append("                              but a statement targets shard ");
                push_decimal(&mut m, shard as u64);
                m.append(". Cross-shard transactions                              are not atomic in this design and are refused rather than                              half-applied.");
                return Step::Refuse(refuse(m.as_str()));
            }
            let size: usize = statement_size(&stmt);
            assert(open.model().staged.len() == open.staged@.len());
            if open.staged.len() >= MAX_TXN_STATEMENTS || open.bytes.saturating_add(size)
                > MAX_TXN_BYTES {
                *txn = Some(open);
                return Step::Refuse(
                    refuse("transaction too large; COMMIT or ROLLBACK and use smaller batches"),
                );
            }
            let ghost before = open.staged@;
            let ghost model = stmt@;
            open.bytes = open.bytes + size;
            open.staged.push(stmt);
            let queued: u64 = open.staged.len() as u64;
            proof {
                let after = statements_model(open.staged@);
                assert(after =~= statements_model(before).push(model));
                assert(after.drop_last() =~= statements_model(before));
            }
            *txn = Some(open);
            Step::Next(Response::Staged { queued })
        },
    }
}

// ---- a request ---------------------------------------------------------------------------------

/// Requests that were carried out, with their answers, in order.
pub type Carried = Seq<(RequestModel, ResponseModel)>;

pub open spec fn carried_of(record: Seq<(Request, Response)>) -> Carried {
    record.map_values(|e: (Request, Response)| (e.0.model(), e.1@))
}

/// Whether `answer` is what `handle` gives for a request.
pub open spec fn answered<H: Fn(Request) -> Response>(
    handle: H,
    request: RequestModel,
    answer: ResponseModel,
) -> bool {
    exists|q: Request, a: Response|
        q.model() == request && a@ == answer && #[trigger] call_ensures(handle, (q,), a)
}

/// Whether `handle` gives the answers.
pub open spec fn all_answered<H: Fn(Request) -> Response>(handle: H, calls: Carried) -> bool {
    forall|i: int| 0 <= i < calls.len() ==> answered(handle, (#[trigger] calls[i]).0, calls[i].1)
}

/// Whether a batch of statements leads from a session to another, with this answer, and these are
/// the requests that it has carried out, with their answers. A statement has one carried out only
/// where its step calls for it.
pub open spec fn batch_runs(
    calls: Carried,
    shard: u32,
    txn: Option<TxnModel>,
    stmts: Seq<StatementModel>,
    last: ResponseModel,
    after: Option<TxnModel>,
    answer: ResponseModel,
) -> bool
    decreases stmts.len(),
{
    if stmts.len() == 0 {
        calls.len() == 0 && after == txn && answer == last
    } else {
        match statement_effect(txn, shard, stmts[0]) {
            StepModel::Next { txn: t, answer: a } => batch_runs(
                calls,
                shard,
                t,
                stmts.drop_first(),
                a,
                after,
                answer,
            ),
            StepModel::Refuse { txn: t, answer: a } => calls.len() == 0 && after == t && answer
                == a,
            StepModel::Call { txn: t, request } => calls.len() > 0 && calls[0].0 == request
                && batch_runs(
                calls.drop_first(),
                shard,
                t,
                stmts.drop_first(),
                calls[0].1,
                after,
                answer,
            ),
        }
    }
}

/// Whether one of the statements is transaction control.
pub open spec fn touches_txn(stmts: Seq<StatementModel>) -> bool {
    exists|i: int| 0 <= i < stmts.len() && txn_keyword(keyword((#[trigger] stmts[i]).sql))
}

/// What a session makes of a request.
#[derive(Debug)]
pub enum SessionStep {
    /// The session handled the request; here is the reply.
    Handled(Response),
    /// No concern of a transaction; for the normal request handler.
    Passthrough(Request),
}

/// Whether `r` is what a session makes of a request, and these are the requests that it has carried
/// out for it. Everything but a batch of statements, and a batch that neither touches nor finds a
/// transaction, passes through as it is, and nothing is carried out.
pub open spec fn session_result(
    calls: Carried,
    txn: Option<TxnModel>,
    req: RequestModel,
    after: Option<TxnModel>,
    r: SessionStep,
) -> bool {
    if txn is Some && (req is Query || req is QueryAll) {
        calls.len() == 0 && after == txn && (r matches SessionStep::Handled(a) && a@ == refusal(
            read_refusal(),
        ))
    } else {
        match req {
            RequestModel::Execute { shard, statements } => if txn is None && !touches_txn(
                statements,
            ) {
                calls.len() == 0 && after == txn && (r matches SessionStep::Passthrough(q) && q.model()
                    == req)
            } else {
                r matches SessionStep::Handled(a) && batch_runs(
                    calls,
                    shard,
                    txn,
                    statements,
                    ResponseModel::Done,
                    after,
                    a@,
                )
            },
            _ => calls.len() == 0 && after == txn && (r matches SessionStep::Passthrough(q)
                && q.model() == req),
        }
    }
}

fn any_txn_keyword(stmts: &Vec<DbStatement>) -> (r: bool)
    ensures
        r == touches_txn(statements_model(stmts@)),
{
    let ghost model = statements_model(stmts@);
    let mut i: usize = 0;
    while i < stmts.len()
        invariant
            i <= stmts@.len(),
            model == statements_model(stmts@),
            forall|k: int| 0 <= k < i ==> !txn_keyword(keyword((#[trigger] model[k]).sql)),
        decreases stmts@.len() - i,
    {
        assert(model[i as int] == stmts@[i as int]@);
        let kw = first_keyword(stmts[i].sql.as_str());
        if is_txn_keyword(kw.as_str()) {
            return true;
        }
        i = i + 1;
    }
    false
}

#[verifier::loop_isolation(false)]
fn run_batch<H: Fn(Request) -> Response>(
    txn: &mut Option<Txn>,
    shard: u32,
    stmts: &Vec<DbStatement>,
    handle: &mut Line<Request, Response, H>,
) -> (r: Response)
    requires
        txn_wf(*old(txn)),
        forall|q: Request| #[trigger] call_requires(old(handle).far(), (q,)),
    ensures
        txn_wf(*final(txn)),
        final(handle).far() == old(handle).far(),
        goes_on(old(handle).record(), final(handle).record()),
        all_answered(
            old(handle).far(),
            carried_of(since(old(handle).record(), final(handle).record())),
        ),
        batch_runs(
            carried_of(since(old(handle).record(), final(handle).record())),
            shard,
            txn_model(*old(txn)),
            statements_model(stmts@),
            ResponseModel::Done,
            txn_model(*final(txn)),
            r@,
        ),
{
    let ghost before = txn_model(*txn);
    let ghost all = statements_model(stmts@);
    let ghost far = handle.far();
    let ghost first = handle.record();
    let ghost mut made: Seq<(Request, Response)> = Seq::empty();
    let mut last = Response::Done;
    let mut i: usize = 0;
    assert(all.skip(0) =~= all);
    assert(first + made =~= first);
    assert forall|rest: Carried, after: Option<TxnModel>, answer: ResponseModel| #[trigger]
        batch_runs(rest, shard, before, all.skip(0), last@, after, answer) implies batch_runs(
        carried_of(made) + rest,
        shard,
        before,
        all,
        ResponseModel::Done,
        after,
        answer,
    ) by {
        assert(carried_of(made) + rest =~= rest);
    }
    while i < stmts.len()
        invariant
            i <= stmts@.len(),
            txn_wf(*txn),
            handle.far() == far,
            handle.record() == first + made,
            all_answered(far, carried_of(made)),
            forall|rest: Carried, after: Option<TxnModel>, answer: ResponseModel| #[trigger]
                batch_runs(
                    rest,
                    shard,
                    txn_model(*txn),
                    all.skip(i as int),
                    last@,
                    after,
                    answer,
                ) ==> batch_runs(
                    carried_of(made) + rest,
                    shard,
                    before,
                    all,
                    ResponseModel::Done,
                    after,
                    answer,
                ),
        decreases stmts@.len() - i,
    {
        let ghost rest = all.skip(i as int);
        let ghost here = txn_model(*txn);
        let ghost so_far = last@;
        let ghost had = made;
        proof {
            assert(rest[0] == stmts@[i as int]@);
            assert(rest.drop_first() =~= all.skip(i as int + 1));
        }
        match statement_step(txn, shard, stmts[i].copy()) {
            Step::Next(answer) => {
                last = answer;
            },
            Step::Refuse(answer) => {
                proof {
                    let none: Carried = Seq::empty();
                    assert(batch_runs(
                        none,
                        shard,
                        here,
                        rest,
                        so_far,
                        txn_model(*txn),
                        answer@,
                    ));
                    assert(carried_of(made) + none =~= carried_of(made));
                    lemma_added(first, made);
                }
                return answer;
            },
            Step::Call(request) => {
                let ghost asked = request;
                let answer = handle.ask(request);
                proof {
                    made = had.push((asked, answer));
                    assert(handle.record() =~= first + made);
                    assert(carried_of(made) =~= carried_of(had).push((asked.model(), answer@)));
                    assert(answered(far, asked.model(), answer@));
                }
                last = answer;
            },
        }
        i = i + 1;
        assert forall|more: Carried, after: Option<TxnModel>, answer: ResponseModel| #[trigger]
            batch_runs(
                more,
                shard,
                txn_model(*txn),
                all.skip(i as int),
                last@,
                after,
                answer,
            ) implies batch_runs(
            carried_of(made) + more,
            shard,
            before,
            all,
            ResponseModel::Done,
            after,
            answer,
        ) by {
            if made.len() == had.len() {
                assert(batch_runs(more, shard, here, rest, so_far, after, answer));
            } else {
                let one = seq![(carried_of(made).last().0, last@)] + more;
                assert(one.drop_first() =~= more);
                assert(batch_runs(one, shard, here, rest, so_far, after, answer));
                assert(carried_of(had) + one =~= carried_of(made) + more);
            }
        }
    }
    proof {
        let none: Carried = Seq::empty();
        assert(all.skip(i as int).len() == 0);
        assert(batch_runs(
            none,
            shard,
            txn_model(*txn),
            all.skip(i as int),
            last@,
            txn_model(*txn),
            last@,
        ));
        assert(carried_of(made) + none =~= carried_of(made));
        lemma_added(first, made);
    }
    last
}

/// Applies transaction semantics to a request: writes are buffered, and applied at `COMMIT` through
/// `handle`, which carries a request out and gives its answer. Nothing else is carried out.
pub fn session_step<H: Fn(Request) -> Response>(
    txn: &mut Option<Txn>,
    req: Request,
    handle: &mut Line<Request, Response, H>,
) -> (r: SessionStep)
    requires
        txn_wf(*old(txn)),
        forall|q: Request| #[trigger] call_requires(old(handle).far(), (q,)),
    ensures
        txn_wf(*final(txn)),
        final(handle).far() == old(handle).far(),
        goes_on(old(handle).record(), final(handle).record()),
        all_answered(
            old(handle).far(),
            carried_of(since(old(handle).record(), final(handle).record())),
        ),
        session_result(
            carried_of(since(old(handle).record(), final(handle).record())),
            txn_model(*old(txn)),
            req.model(),
            txn_model(*final(txn)),
            r,
        ),
{
    proof {
        let all = handle.record();
        lemma_added(all, Seq::empty());
        assert(all + Seq::empty() =~= all);
    }
    if txn.is_some() {
        let reads = match &req {
            Request::Query { .. } => true,
            Request::QueryAll { .. } => true,
            _ => false,
        };
        if reads {
            return SessionStep::Handled(
                refuse("reads are not supported inside a transaction: it buffers writes and applies them              atomically at COMMIT, so a read here could not see them. COMMIT first, or read              on a separate connection."),
            );
        }
    }
    match req {
        Request::Execute { shard, statements } => {
            if txn.is_none() && !any_txn_keyword(&statements) {
                return SessionStep::Passthrough(Request::Execute { shard, statements });
            }
            let answer = run_batch(txn, shard, &statements, handle);
            SessionStep::Handled(answer)
        },
        other => SessionStep::Passthrough(other),
    }
}

// ---- laws --------------------------------------------------------------------------------------

/// Nothing of a transaction is applied before its `COMMIT`: while one is open, every statement but
/// `COMMIT` asks for nothing to be carried out.
pub proof fn law_open_transaction_applies_nothing(
    open: TxnModel,
    shard: u32,
    stmt: StatementModel,
)
    requires
        keyword(stmt.sql) != "COMMIT"@,
        keyword(stmt.sql) != "END"@,
    ensures
        !(statement_effect(Some(open), shard, stmt) is Call),
{
}

proof fn lemma_open_batch_carries_nothing(
    calls: Carried,
    shard: u32,
    open: TxnModel,
    stmts: Seq<StatementModel>,
    last: ResponseModel,
    after: Option<TxnModel>,
    answer: ResponseModel,
)
    requires
        batch_runs(calls, shard, Some(open), stmts, last, after, answer),
        !touches_txn(stmts),
    ensures
        calls.len() == 0,
    decreases stmts.len(),
{
    if stmts.len() > 0 {
        let rest = stmts.drop_first();
        assert(!txn_keyword(keyword(stmts[0].sql)));
        assert(!touches_txn(rest)) by {
            assert forall|i: int| 0 <= i < rest.len() implies !txn_keyword(
                keyword((#[trigger] rest[i]).sql),
            ) by {
                assert(rest[i] == stmts[i + 1]);
            }
        }
        match statement_effect(Some(open), shard, stmts[0]) {
            StepModel::Next { txn: t, answer: a } => {
                lemma_open_batch_carries_nothing(calls, shard, t->0, rest, a, after, answer);
            },
            _ => {},
        }
    }
}

/// Inside a transaction, writes are staged and nothing is carried out: no request but one that ends
/// the transaction reaches the databases.
pub proof fn law_staged_writes_reach_nothing(
    calls: Carried,
    open: TxnModel,
    shard: u32,
    statements: Seq<StatementModel>,
    after: Option<TxnModel>,
    r: SessionStep,
)
    requires
        session_result(
            calls,
            Some(open),
            RequestModel::Execute { shard, statements },
            after,
            r,
        ),
        !touches_txn(statements),
    ensures
        calls.len() == 0,
{
    lemma_open_batch_carries_nothing(
        calls,
        shard,
        open,
        statements,
        ResponseModel::Done,
        after,
        r->Handled_0@,
    );
}

/// A transaction commits as a whole or not at all: `COMMIT` hands over every buffered statement, in
/// order, as one atomic batch for the shard the transaction began on, and closes it.
pub proof fn law_commit_hands_over_everything(open: TxnModel, shard: u32, stmt: StatementModel)
    requires
        keyword(stmt.sql) == "COMMIT"@ || keyword(stmt.sql) == "END"@,
        open.staged.len() > 0,
    ensures
        statement_effect(Some(open), shard, stmt) == (StepModel::Call {
            txn: None,
            request: RequestModel::Transaction { shard: open.shard, statements: open.staged },
        }),
{
    reveal_strlit("BEGIN");
    reveal_strlit("COMMIT");
    reveal_strlit("END");
    assert("BEGIN"@.len() == 5);
    assert("COMMIT"@.len() == 6);
    assert("END"@.len() == 3);
}

/// The buffer stays bounded: a statement that leaves a transaction open leaves it within both
/// limits, where it was before.
pub proof fn law_transactions_stay_bounded(
    txn: Option<TxnModel>,
    shard: u32,
    stmt: StatementModel,
)
    requires
        txn matches Some(t) ==> t.staged.len() <= MAX_TXN_STATEMENTS && staged_size(t.staged)
            <= MAX_TXN_BYTES,
    ensures
        match statement_effect(txn, shard, stmt) {
            StepModel::Next { txn: after, .. } => after matches Some(t) ==> t.staged.len()
                <= MAX_TXN_STATEMENTS && staged_size(t.staged) <= MAX_TXN_BYTES,
            StepModel::Refuse { txn: after, .. } => after matches Some(t) ==> t.staged.len()
                <= MAX_TXN_STATEMENTS && staged_size(t.staged) <= MAX_TXN_BYTES,
            StepModel::Call { txn: after, .. } => after is None,
        },
{
    if txn is Some {
        let t = txn->0;
        assert(t.staged.push(stmt).drop_last() =~= t.staged);
    }
}

/// A transaction never spans shards: a write to another shard ends it, with nothing applied.
pub proof fn law_transactions_stay_on_one_shard(
    open: TxnModel,
    shard: u32,
    stmt: StatementModel,
)
    requires
        shard != open.shard,
        !txn_keyword(keyword(stmt.sql)),
    ensures
        statement_effect(Some(open), shard, stmt) == (StepModel::Refuse {
            txn: None,
            answer: refusal(cross_shard_refusal(open.shard, shard)),
        }),
{
}

} // verus!
