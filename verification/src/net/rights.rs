//! Who may do what, and what a transaction does, in plain terms.

use vstd::prelude::*;
use vstd::utf8::encode_utf8;

use super::auth::{
    requirement, saved, users_text, verb_requirement, AuthConfig, Requirement, Role, UserModel,
};
use super::connection::{
    challenges, doorman, held_after, request_served, AdmissionModel, GateModel,
};
use super::protocol::{RequestModel, ResponseModel, PROTOCOL_VERSION};
use super::server::NodeFacts;
use super::session::{
    batch_runs, session_result, size_of_statement, staged_size, statement_effect, step_is,
    txn_keyword, values_size, Carried, SessionStep, Step, StepModel, TxnModel, MAX_TXN_BYTES, MAX_TXN_STATEMENTS,
};
use crate::error::ErrorModel;
use crate::keyword::{is_letter, keyword, letters_end};
use crate::lines::trimmed;
use crate::storage::exec::{Datum, StatementModel};
use crate::text::upper;

verus! {

// ---- words -------------------------------------------------------------------------------------

proof fn lemma_letters(s: Seq<char>, i: int, n: int)
    requires
        0 <= i <= n <= s.len(),
        forall|k: int| 0 <= k < n ==> is_letter(#[trigger] s[k]),
        n == s.len() || !is_letter(s[n]),
    ensures
        letters_end(s, i) == n,
    decreases n - i,
{
    if i < n {
        assert(is_letter(s[i]));
        lemma_letters(s, i + 1, n);
    }
}

/// The verb of a statement is its first word, in capitals, whatever its case and whatever follows.
pub proof fn law_the_verb_is_the_first_word(word: Seq<char>, rest: Seq<char>)
    requires
        trimmed(word + rest) == word + rest,
        forall|i: int|
            0 <= i < word.len() ==> ('a' <= #[trigger] word[i] <= 'z') || ('A' <= word[i] <= 'Z'),
        rest.len() == 0 || !(('a' <= rest[0] <= 'z') || ('A' <= rest[0] <= 'Z')),
    ensures
        keyword(word + rest) == upper(word),
{
    let s = word + rest;
    assert forall|k: int| 0 <= k < word.len() implies is_letter(#[trigger] s[k]) by {
        assert(s[k] == word[k]);
    }
    if rest.len() > 0 {
        assert(s[word.len() as int] == rest[0]);
    }
    lemma_letters(s, 0, word.len() as int);
    assert(s.subrange(0, word.len() as int) =~= word);
}

// ---- rights ------------------------------------------------------------------------------------

/// What the roles may do: readers read, writers read and write, administrators do that and change
/// schemas and users, and peers of the cluster do what peers do and nothing else.
pub proof fn law_what_roles_may(role: Role)
    ensures
        role.may(Requirement::Handshake),
        role.may(Requirement::Read) <==> role == Role::Read || role == Role::Write || role
            == Role::Admin,
        role.may(Requirement::Write) <==> role == Role::Write || role == Role::Admin,
        role.may(Requirement::Admin) <==> role == Role::Admin,
        role.may(Requirement::Cluster) <==> role == Role::Cluster,
{
}

/// Who gets a request past the doorman of a secured server, kind by kind.
pub proof fn law_who_may_ask_for_what(
    role: Role,
    req: RequestModel,
    users: Seq<UserModel>,
    facts: NodeFacts,
    nonce: Result<Seq<u8>, ErrorModel>,
)
    ensures
        ({
            let passes = doorman(
                GateModel::Authed(role),
                req,
                users,
                facts,
                nonce,
            ).1 == AdmissionModel::Pass(req);
            &&& req is Query || req is QueryAll || req is Route || req is Info ==> (passes <==> role
                != Role::Cluster)
            &&& req is Execute || req is Transaction ==> (passes <==> role == Role::Write || role
                == Role::Admin)
            &&& req is ExecuteAll || req is SchemaApply || req is CreateUser || req is DropUser || req
                is ListUsers ==> (passes <==> role == Role::Admin)
            &&& req is Subscribe || req is SnapshotBegin || req is SnapshotRead || req is SnapshotEnd
                || req is Vote || req is Beat || req is Direct ==> (passes <==> role
                == Role::Cluster)
        }),
{
}

/// A routed statement needs what its verb needs: a schema change an administrator, a write a writer,
/// and anything else a reader.
pub proof fn law_verbs_need_roles(statement: StatementModel)
    ensures
        ({
            let verb = keyword(statement.sql);
            let need = requirement(RequestModel::Run { statement });
            &&& verb == "CREATE"@ || verb == "DROP"@ || verb == "ALTER"@ ==> need
                == Requirement::Admin
            &&& verb == "INSERT"@ || verb == "UPDATE"@ || verb == "DELETE"@ || verb == "REPLACE"@
                ==> need == Requirement::Write
            &&& verb == "SELECT"@ ==> need == Requirement::Read
        }),
{
    reveal_strlit("CREATE");
    reveal_strlit("DROP");
    reveal_strlit("ALTER");
    reveal_strlit("INSERT");
    reveal_strlit("UPDATE");
    reveal_strlit("DELETE");
    reveal_strlit("REPLACE");
    reveal_strlit("SELECT");
    let verb = keyword(statement.sql);
    assert(requirement(RequestModel::Run { statement }) == verb_requirement(verb));
    assert("CREATE"@[0] == 'C' && "DROP"@[1] == 'R' && "ALTER"@[0] == 'A');
    assert("INSERT"@[0] == 'I' && "UPDATE"@[0] == 'U' && "DELETE"@[1] == 'E');
    assert("REPLACE"@[0] == 'R' && "SELECT"@[0] == 'S' && "DROP"@[0] == 'D' && "DELETE"@[0] == 'D');
}

/// The names of the roles are told apart, and each is read back.
pub proof fn law_role_names_read_back(role: Role)
    ensures
        Role::named(role.shown()) == Some(role),
        Role::named("read"@) == Some(Role::Read),
        Role::named("write"@) == Some(Role::Write),
        Role::named("admin"@) == Some(Role::Admin),
        Role::named("cluster"@) == Some(Role::Cluster),
{
    reveal_strlit("read");
    reveal_strlit("write");
    reveal_strlit("admin");
    reveal_strlit("cluster");
    assert("read"@[0] == 'r' && "write"@[0] == 'w' && "admin"@[0] == 'a' && "cluster"@[0] == 'c');
}

/// An open server lets everything pass as it is; a fresh connection to a secured one is answered a
/// challenge where it says hello in the same version, and is refused otherwise.
pub proof fn law_the_handshake(
    req: RequestModel,
    users: Seq<UserModel>,
    facts: NodeFacts,
    nonce: Seq<u8>,
)
    ensures
        doorman(GateModel::Open, req, users, facts, Ok(nonce)) == (
            GateModel::Open,
            AdmissionModel::Pass(req),
        ),
        (req matches RequestModel::Hello { version, .. } && version == PROTOCOL_VERSION) ==> doorman(
            GateModel::Fresh,
            req,
            users,
            facts,
            Ok(nonce),
        ) == (
            GateModel::Challenged(nonce),
            AdmissionModel::Answer(ResponseModel::Challenge { nonce }),
        ),
        !(req matches RequestModel::Hello { version, .. } && version == PROTOCOL_VERSION) ==> (
        doorman(GateModel::Fresh, req, users, facts, Ok(nonce)).0 == GateModel::Fresh && (doorman(
            GateModel::Fresh,
            req,
            users,
            facts,
            Ok(nonce),
        ).1 matches AdmissionModel::Answer(r) && r is Error)),
{
}

/// A wrong proof gives no role, and a right one gives the role of its user and a welcome.
pub proof fn law_proofs_are_checked(
    name: Seq<char>,
    answer: Seq<u8>,
    users: Seq<UserModel>,
    facts: NodeFacts,
    nonce: Seq<u8>,
    fresh: Result<Seq<u8>, ErrorModel>,
)
    ensures
        ({
            let req = RequestModel::Auth { name, proof: answer };
            let found = super::auth::user_named(users, name);
            let out = doorman(GateModel::Challenged(nonce), req, users, facts, fresh);
            &&& (found matches Some(u) && super::auth::blake3_keyed_of(u.key, nonce) == answer)
                ==> out.0 == GateModel::Authed(found->0.role) && (out.1 matches
                AdmissionModel::Answer(r) && r is Welcome)
            &&& !(found matches Some(u) && super::auth::blake3_keyed_of(u.key, nonce) == answer)
                ==> out.0 == GateModel::Challenged(nonce) && out.1 is Impostor
        }),
{
}

/// A snapshot that began freezes its shard, for this connection, and no other; one that was refused
/// freezes nothing.
pub proof fn law_snapshots_freeze_their_shard(
    held: Set<u32>,
    shard: u32,
    other: u32,
    answer: ResponseModel,
)
    ensures
        answer is SnapshotInfo ==> held_after(
            held,
            RequestModel::SnapshotBegin { shard },
            answer,
        ).contains(shard),
        !(answer is SnapshotInfo) ==> held_after(
            held,
            RequestModel::SnapshotBegin { shard },
            answer,
        ) == held,
        other != shard ==> (held_after(
            held,
            RequestModel::SnapshotBegin { shard },
            answer,
        ).contains(other) <==> held.contains(other)),
        !held_after(
            held,
            RequestModel::SnapshotEnd { shard },
            ResponseModel::Done,
        ).contains(shard),
{
}

// ---- transactions ------------------------------------------------------------------------------

proof fn lemma_words_differ()
    ensures
        "BEGIN"@ != "COMMIT"@,
        "BEGIN"@ != "END"@,
        "BEGIN"@ != "ROLLBACK"@,
        "BEGIN"@ != "SAVEPOINT"@,
        "BEGIN"@ != "RELEASE"@,
        "COMMIT"@ != "END"@,
        "COMMIT"@ != "ROLLBACK"@,
        "COMMIT"@ != "SAVEPOINT"@,
        "COMMIT"@ != "RELEASE"@,
        "END"@ != "ROLLBACK"@,
        "END"@ != "SAVEPOINT"@,
        "END"@ != "RELEASE"@,
        "ROLLBACK"@ != "SAVEPOINT"@,
        "ROLLBACK"@ != "RELEASE"@,
        "SAVEPOINT"@ != "RELEASE"@,
{
    reveal_strlit("BEGIN");
    reveal_strlit("COMMIT");
    reveal_strlit("END");
    reveal_strlit("ROLLBACK");
    reveal_strlit("SAVEPOINT");
    reveal_strlit("RELEASE");
    assert("BEGIN"@[0] == 'B' && "COMMIT"@[0] == 'C' && "END"@[0] == 'E');
    assert("ROLLBACK"@[1] == 'O' && "SAVEPOINT"@[0] == 'S' && "RELEASE"@[1] == 'E');
    assert("ROLLBACK"@[0] == 'R' && "RELEASE"@[0] == 'R');
}

/// `BEGIN` opens a transaction on its shard with nothing in it, and is refused inside one, which
/// stays as it is.
pub proof fn law_begin(open: TxnModel, shard: u32, stmt: StatementModel)
    requires
        keyword(stmt.sql) == "BEGIN"@,
    ensures
        statement_effect(None, shard, stmt) matches StepModel::Next { txn: Some(t), answer }
            && t.shard == shard && t.staged.len() == 0 && answer is Done,
        statement_effect(Some(open), shard, stmt) matches StepModel::Refuse { txn, answer } && txn
            == Some(open) && answer is Error,
{
}

/// `ROLLBACK` drops everything that was buffered, and has nothing carried out.
pub proof fn law_rollback(txn: Option<TxnModel>, shard: u32, stmt: StatementModel)
    requires
        keyword(stmt.sql) == "ROLLBACK"@,
    ensures
        statement_effect(txn, shard, stmt) matches StepModel::Next { txn: after, answer } && after
            is None && answer is Done,
{
    lemma_words_differ();
}

/// `COMMIT` without a transaction is refused, and one with nothing in it has nothing carried out.
pub proof fn law_empty_commits(open: TxnModel, shard: u32, stmt: StatementModel)
    requires
        keyword(stmt.sql) == "COMMIT"@ || keyword(stmt.sql) == "END"@,
        open.staged.len() == 0,
    ensures
        statement_effect(None, shard, stmt) is Refuse,
        statement_effect(Some(open), shard, stmt) matches StepModel::Next { txn, answer } && txn
            is None && (answer matches ResponseModel::Changed { rows_affected, .. } && rows_affected
            == 0),
{
    lemma_words_differ();
}

/// Savepoints are refused, and leave the transaction as it is.
pub proof fn law_savepoints(txn: Option<TxnModel>, shard: u32, stmt: StatementModel)
    requires
        keyword(stmt.sql) == "SAVEPOINT"@ || keyword(stmt.sql) == "RELEASE"@,
    ensures
        statement_effect(txn, shard, stmt) matches StepModel::Refuse { txn: after, answer } && after
            == txn && answer is Error,
{
    lemma_words_differ();
}

/// A statement inside a transaction on its shard is buffered behind the others, and its sender is
/// told how many there are; where there is no room it is refused, and the transaction stays. Outside
/// a transaction it is carried out at once, alone.
pub proof fn law_statements_are_buffered(open: TxnModel, shard: u32, stmt: StatementModel)
    requires
        keyword(stmt.sql) != "BEGIN"@ && keyword(stmt.sql) != "COMMIT"@ && keyword(stmt.sql)
            != "END"@ && keyword(stmt.sql) != "ROLLBACK"@ && keyword(stmt.sql) != "SAVEPOINT"@
            && keyword(stmt.sql) != "RELEASE"@,
        open.shard == shard,
    ensures
        open.staged.len() < 100_000 && staged_size(open.staged) + size_of_statement(stmt)
            <= 67_108_864 ==> (statement_effect(Some(open), shard, stmt) matches StepModel::Next {
            txn: Some(t),
            answer,
        } && t.shard == shard && t.staged == open.staged.push(stmt) && answer
            == (ResponseModel::Staged { queued: (open.staged.len() + 1) as u64 })),
        open.staged.len() >= 100_000 || staged_size(open.staged) + size_of_statement(stmt)
            > 67_108_864 ==> (statement_effect(Some(open), shard, stmt) matches StepModel::Refuse {
            txn,
            ..
        } && txn == Some(open)),
        statement_effect(None, shard, stmt) matches StepModel::Call { txn, request } && txn is None
            && request == (RequestModel::Execute { shard, statements: seq![stmt] }),
{
    assert(MAX_TXN_STATEMENTS == 100_000 && MAX_TXN_BYTES == 67_108_864);
}

/// What a statement counts for: the bytes of its text, those of its texts and blobs, and eight for
/// any other parameter.
pub proof fn law_sizes(s: StatementModel, more: Datum)
    ensures
        s.params.len() == 0 ==> size_of_statement(s) == encode_utf8(s.sql).len(),
        values_size(s.params.push(more)) == values_size(s.params) + (match more {
            Datum::Text(t) => encode_utf8(t).len(),
            Datum::Blob(b) => b.len(),
            _ => 8,
        }),
        size_of_statement(s) == encode_utf8(s.sql).len() + values_size(s.params),
        staged_size(seq![s]) == size_of_statement(s),
{
    assert(s.params.push(more).drop_last() =~= s.params);
    reveal_with_fuel(staged_size, 2);
    assert(seq![s].drop_last() =~= Seq::<StatementModel>::empty());
}

/// A read inside a transaction is refused, and the transaction stays; any request but a batch of
/// statements passes as it is, and so does a batch outside a transaction without transaction control.
pub proof fn law_what_a_session_lets_pass(
    calls: Carried,
    txn: Option<TxnModel>,
    req: RequestModel,
    after: Option<TxnModel>,
    r: SessionStep,
)
    requires
        session_result(calls, txn, req, after, r),
    ensures
        txn is Some && (req is Query || req is QueryAll) ==> (r matches SessionStep::Handled(a)
            && a@ is Error) && after == txn && calls.len() == 0,
        !(req is Execute) && !(txn is Some && (req is Query || req is QueryAll)) ==> (r matches
            SessionStep::Passthrough(q) && q.model() == req) && after == txn,
        txn is None && (req matches RequestModel::Execute { statements, .. } && forall|i: int|
            0 <= i < statements.len() ==> !txn_keyword(keyword((#[trigger] statements[i]).sql)))
            ==> (r matches SessionStep::Passthrough(q) && q.model() == req),
{
}

/// Outside a transaction a request is carried out once, as it is, and its answer is given: every
/// request but a batch of statements, and a batch without transaction control. A read inside a
/// transaction carries out nothing.
pub proof fn law_requests_are_carried_out_once(
    calls: Carried,
    txn: Option<TxnModel>,
    req: RequestModel,
    after: Option<TxnModel>,
    answer: ResponseModel,
)
    requires
        request_served(calls, txn, req, after, answer),
    ensures
        txn is None && !(req is Execute) ==> calls == seq![(req, answer)] && after is None,
        txn is None && (req matches RequestModel::Execute { statements, .. } && forall|i: int|
            0 <= i < statements.len() ==> !txn_keyword(keyword((#[trigger] statements[i]).sql)))
            ==> calls == seq![(req, answer)] && after is None,
        txn is Some && (req is Query || req is QueryAll) ==> calls.len() == 0 && after == txn
            && answer is Error,
{
    let (made, step) = choose|made: Carried, step: SessionStep| #[trigger]
        session_result(made, txn, req, after, step) && match step {
            SessionStep::Handled(r) => calls == made && answer == r@,
            SessionStep::Passthrough(q) => calls == made.push((q.model(), answer)),
        };
    law_what_a_session_lets_pass(made, txn, req, after, step);
    if step is Passthrough {
        assert(made.push((req, answer)) =~= seq![(req, answer)]);
    }
}

/// Only a hello in this version that comes first is challenged.
pub proof fn law_who_is_challenged(gate: GateModel, req: RequestModel)
    ensures
        challenges(gate, req) <==> gate is Fresh && (req matches RequestModel::Hello { version, .. }
            && version == PROTOCOL_VERSION),
{
}

/// A batch stops at the first statement that is refused, with its refusal; otherwise its answer is
/// that of its last statement.
pub proof fn law_batches_in_order(
    calls: Carried,
    shard: u32,
    txn: Option<TxnModel>,
    first: StatementModel,
    rest: Seq<StatementModel>,
    last: ResponseModel,
    after: Option<TxnModel>,
    answer: ResponseModel,
)
    requires
        batch_runs(calls, shard, txn, seq![first] + rest, last, after, answer),
    ensures
        statement_effect(txn, shard, first) matches StepModel::Refuse { txn: t, answer: a } ==> after
            == t && answer == a && calls.len() == 0,
        rest.len() == 0 && statement_effect(txn, shard, first) is Next ==> answer
            == statement_effect(txn, shard, first)->Next_answer,
        statement_effect(txn, shard, first) matches StepModel::Call { request, .. } ==> calls.len()
            > 0 && calls[0].0 == request && (rest.len() == 0 ==> calls.len() == 1 && answer
            == calls[0].1),
{
    let stmts = seq![first] + rest;
    assert(stmts[0] == first);
    assert(stmts.drop_first() =~= rest);
    reveal_with_fuel(batch_runs, 2);
}

/// A statement leaves the session as its effect says, and is answered, refused or carried out as it
/// says.
pub proof fn law_steps_take_effect(effect: StepModel, after: Option<TxnModel>, step: Step)
    requires
        step_is(effect, after, step),
    ensures
        effect matches StepModel::Next { txn, answer } ==> after == txn && (step matches Step::Next(r)
            && r@ == answer),
        effect matches StepModel::Refuse { txn, answer } ==> after == txn && (step
            matches Step::Refuse(r) && r@ == answer),
        effect matches StepModel::Call { txn, request } ==> after == txn && (step matches Step::Call(
            q,
        ) && q.model() == request),
{
}

/// Where the users are kept in a file, a change gives the text of all of them; otherwise none.
pub proof fn law_users_are_saved(c: AuthConfig, text: Option<String>)
    requires
        saved(c, text),
    ensures
        c.file() is None <==> text is None,
        text matches Some(t) ==> t@ == users_text(c@),
{
}

} // verus!
