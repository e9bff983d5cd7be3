//! Who may do what: roles, the requirement of every request, and the users of a server.
//!
//! A user has a key, derived from a secret that the server never sees. A client proves that it
//! knows the secret by answering a nonce that is fresh for every connection.

use vstd::prelude::*;
use vstd::utf8::encode_utf8;

use super::protocol::{users_model, Request, RequestModel};
use crate::error::{Error, ErrorModel};
use crate::keyword::{first_keyword, keyword};
use crate::lines::{
    is_space, space, lemma_first_line_of, lemma_first_word, lines, lines_of, spaceless, trim,
    trimmed, words, words_of,
};
use crate::query::laws::{lemma_lex_flips, lemma_lex_transitive};
use crate::query::order::{char_codes, lex_order, order_texts};
use crate::storage::doubles::Order;
use crate::text::{chars_of, decimal, push_decimal, same, views};

verus! {

/// What a user may do.
#[derive(Clone, Copy, Debug, PartialEq, Eq, Structural)]
pub enum Role {
    Read,
    Write,
    Admin,
    /// For peers. Not on the ladder of client roles.
    Cluster,
}

/// What a request demands.
#[derive(Clone, Copy, Debug, PartialEq, Eq, Structural)]
pub enum Requirement {
    Handshake,
    Read,
    Write,
    Admin,
    Cluster,
}

/// What a routed statement demands: it is whatever its verb is.
pub open spec fn verb_requirement(verb: Seq<char>) -> Requirement {
    if verb == "CREATE"@ || verb == "DROP"@ || verb == "ALTER"@ {
        Requirement::Admin
    } else if verb == "INSERT"@ || verb == "UPDATE"@ || verb == "DELETE"@ || verb == "REPLACE"@ {
        Requirement::Write
    } else {
        Requirement::Read
    }
}

/// What a routed statement demands.
pub fn required_by_verb(sql: &str) -> (r: Requirement)
    ensures
        r == verb_requirement(keyword(sql@)),
{
    let word = first_keyword(sql);
    let verb = word.as_str();
    if same(verb, "CREATE") || same(verb, "DROP") || same(verb, "ALTER") {
        Requirement::Admin
    } else if same(verb, "INSERT") || same(verb, "UPDATE") || same(verb, "DELETE") || same(
        verb,
        "REPLACE",
    ) {
        Requirement::Write
    } else {
        Requirement::Read
    }
}

/// What a request demands. Subscriptions and snapshots hand out whole shards, votes and heartbeats
/// steer the cluster, and a direct request is forwarded on a peer's authority: those are for peers.
pub open spec fn requirement(req: RequestModel) -> Requirement {
    match req {
        RequestModel::Hello { .. } => Requirement::Handshake,
        RequestModel::Auth { .. } => Requirement::Handshake,
        RequestModel::Query { .. } => Requirement::Read,
        RequestModel::QueryAll { .. } => Requirement::Read,
        RequestModel::Route { .. } => Requirement::Read,
        RequestModel::Info => Requirement::Read,
        RequestModel::Execute { .. } => Requirement::Write,
        RequestModel::Transaction { .. } => Requirement::Write,
        RequestModel::Run { statement } => verb_requirement(keyword(statement.sql)),
        RequestModel::ExecuteAll { .. } => Requirement::Admin,
        RequestModel::SchemaApply { .. } => Requirement::Admin,
        RequestModel::CreateUser { .. } => Requirement::Admin,
        RequestModel::DropUser { .. } => Requirement::Admin,
        RequestModel::ListUsers => Requirement::Admin,
        RequestModel::Subscribe { .. } => Requirement::Cluster,
        RequestModel::SnapshotBegin { .. } => Requirement::Cluster,
        RequestModel::SnapshotRead { .. } => Requirement::Cluster,
        RequestModel::SnapshotEnd { .. } => Requirement::Cluster,
        RequestModel::Vote(_) => Requirement::Cluster,
        RequestModel::Beat(_) => Requirement::Cluster,
        RequestModel::Direct(_) => Requirement::Cluster,
    }
}

/// What a request demands of the connection it arrives on.
pub fn required(req: &Request) -> (r: Requirement)
    ensures
        r == requirement(req.model()),
{
    match req {
        Request::Hello { .. } => Requirement::Handshake,
        Request::Auth { .. } => Requirement::Handshake,
        Request::Query { .. } => Requirement::Read,
        Request::QueryAll { .. } => Requirement::Read,
        Request::Route { .. } => Requirement::Read,
        Request::Info => Requirement::Read,
        Request::Execute { .. } => Requirement::Write,
        Request::Transaction { .. } => Requirement::Write,
        Request::Run { statement } => required_by_verb(statement.sql.as_str()),
        Request::ExecuteAll { .. } => Requirement::Admin,
        Request::SchemaApply { .. } => Requirement::Admin,
        Request::CreateUser { .. } => Requirement::Admin,
        Request::DropUser { .. } => Requirement::Admin,
        Request::ListUsers => Requirement::Admin,
        Request::Subscribe { .. } => Requirement::Cluster,
        Request::SnapshotBegin { .. } => Requirement::Cluster,
        Request::SnapshotRead { .. } => Requirement::Cluster,
        Request::SnapshotEnd { .. } => Requirement::Cluster,
        Request::Vote(_) => Requirement::Cluster,
        Request::Beat(_) => Requirement::Cluster,
        Request::Direct(_) => Requirement::Cluster,
    }
}

impl Requirement {
    pub open spec fn shown(self) -> Seq<char> {
        match self {
            Requirement::Handshake => "Handshake"@,
            Requirement::Read => "Read"@,
            Requirement::Write => "Write"@,
            Requirement::Admin => "Admin"@,
            Requirement::Cluster => "Cluster"@,
        }
    }

    pub fn name(self) -> (r: &'static str)
        ensures
            r@ == self.shown(),
    {
        match self {
            Requirement::Handshake => "Handshake",
            Requirement::Read => "Read",
            Requirement::Write => "Write",
            Requirement::Admin => "Admin",
            Requirement::Cluster => "Cluster",
        }
    }
}

impl Role {
    /// The step of a client role on the ladder.
    pub open spec fn step(self) -> int {
        match self {
            Role::Read => 1,
            Role::Write => 2,
            Role::Admin => 3,
            Role::Cluster => 0,
        }
    }

    /// Whether a role may make a request: the handshake is for everyone, each client role may do
    /// what those below it may, and what peers do is for peers alone.
    pub open spec fn may(self, need: Requirement) -> bool {
        match need {
            Requirement::Handshake => true,
            Requirement::Read => self.step() >= 1,
            Requirement::Write => self.step() >= 2,
            Requirement::Admin => self.step() >= 3,
            Requirement::Cluster => self == Role::Cluster,
        }
    }

    /// Whether this role may make a request.
    pub fn permits(self, need: Requirement) -> (r: bool)
        ensures
            r == self.may(need),
    {
        match need {
            Requirement::Handshake => true,
            Requirement::Read => self == Role::Read || self == Role::Write || self == Role::Admin,
            Requirement::Write => self == Role::Write || self == Role::Admin,
            Requirement::Admin => self == Role::Admin,
            Requirement::Cluster => self == Role::Cluster,
        }
    }

    pub open spec fn shown(self) -> Seq<char> {
        match self {
            Role::Read => "read"@,
            Role::Write => "write"@,
            Role::Admin => "admin"@,
            Role::Cluster => "cluster"@,
        }
    }

    /// The role's name.
    pub fn name(self) -> (r: &'static str)
        ensures
            r@ == self.shown(),
    {
        match self {
            Role::Read => "read",
            Role::Write => "write",
            Role::Admin => "admin",
            Role::Cluster => "cluster",
        }
    }

    /// The role of a name.
    pub open spec fn named(s: Seq<char>) -> Option<Role> {
        if s == "read"@ {
            Some(Role::Read)
        } else if s == "write"@ {
            Some(Role::Write)
        } else if s == "admin"@ {
            Some(Role::Admin)
        } else if s == "cluster"@ {
            Some(Role::Cluster)
        } else {
            None
        }
    }

    /// Reads a role's name.
    pub fn parse(s: &str) -> (r: Result<Role, Error>)
        ensures
            match Role::named(s@) {
                Some(role) => r == Ok::<Role, Error>(role),
                None => r matches Err(e) && e@ == ErrorModel::Protocol(unknown_role(s@)),
            },
    {
        if same(s, "read") {
            Ok(Role::Read)
        } else if same(s, "write") {
            Ok(Role::Write)
        } else if same(s, "admin") {
            Ok(Role::Admin)
        } else if same(s, "cluster") {
            Ok(Role::Cluster)
        } else {
            let mut m = "unknown role '".to_owned();
            m.append(s);
            m.append("'; expected read, write, admin or cluster");
            Err(Error::Protocol(m))
        }
    }
}

pub open spec fn unknown_role(s: Seq<char>) -> Seq<char> {
    "unknown role '"@ + s + "'; expected read, write, admin or cluster"@
}

// ---- keys and proofs ---------------------------------------------------------------------------

pub type Key = [u8; 32];

/// What `blake3::hash` makes of bytes.
pub uninterp spec fn blake3_of(data: Seq<u8>) -> Seq<u8>;

/// What `blake3::keyed_hash` makes of bytes under a key.
pub uninterp spec fn blake3_keyed_of(key: Seq<u8>, data: Seq<u8>) -> Seq<u8>;

/// `blake3::hash`: the 32-byte hash of some bytes, which depends on the bytes alone.
#[verifier::external_body]
fn blake3_hash(data: &[u8]) -> (r: [u8; 32])
    ensures
        r@ == blake3_of(data@),
{
    *blake3::hash(data).as_bytes()
}

/// `blake3::keyed_hash`: the 32-byte hash of some bytes under a key, which depends on both alone.
#[verifier::external_body]
fn blake3_keyed(key: &[u8; 32], data: &[u8; 32]) -> (r: [u8; 32])
    ensures
        r@ == blake3_keyed_of(key@, data@),
{
    *blake3::keyed_hash(key, data).as_bytes()
}

/// `blake3::Hash`'s `==`: whether two hashes are equal, in a time that does not depend on where
/// they differ.
#[verifier::external_body]
fn same_hash(a: &[u8; 32], b: &[u8; 32]) -> (r: bool)
    ensures
        r == (a@ == b@),
{
    blake3::Hash::from_bytes(*a) == blake3::Hash::from_bytes(*b)
}

/// The key that a secret stands for: its hash.
pub fn derive_key(secret: &str) -> (r: Key)
    ensures
        r@ == blake3_of(encode_utf8(secret@)),
{
    blake3_hash(secret.as_bytes())
}

/// The proof that answers a nonce: its hash under the key.
pub fn prove(key: &Key, nonce: &[u8; 32]) -> (r: [u8; 32])
    ensures
        r@ == blake3_keyed_of(key@, nonce@),
{
    blake3_keyed(key, nonce)
}

// ---- users -------------------------------------------------------------------------------------

#[derive(Clone, Copy, Debug)]
pub struct User {
    pub key: Key,
    pub role: Role,
}

/// One user: the name, the key and the role.
pub ghost struct UserModel {
    pub name: Seq<char>,
    pub key: Seq<u8>,
    pub role: Role,
}

pub open spec fn user_model(u: (String, User)) -> UserModel {
    UserModel { name: u.0@, key: u.1.key@, role: u.1.role }
}

pub open spec fn users_list(v: Seq<(String, User)>) -> Seq<UserModel> {
    v.map_values(|u: (String, User)| user_model(u))
}

/// How two names compare in the dictionary.
pub open spec fn name_order(a: Seq<char>, b: Seq<char>) -> Order {
    lex_order(char_codes(a), char_codes(b))
}

/// The user of a name.
pub open spec fn user_named(users: Seq<UserModel>, name: Seq<char>) -> Option<UserModel>
    decreases users.len(),
{
    if users.len() == 0 {
        None
    } else if users[0].name == name {
        Some(users[0])
    } else {
        user_named(users.drop_first(), name)
    }
}

/// The users, in dictionary order, with one more, or with one replaced.
pub open spec fn with_user(users: Seq<UserModel>, user: UserModel) -> Seq<UserModel>
    decreases users.len(),
{
    if users.len() == 0 {
        seq![user]
    } else {
        match name_order(users[0].name, user.name) {
            Order::Less => seq![users[0]] + with_user(users.drop_first(), user),
            Order::Equal => seq![user] + users.drop_first(),
            Order::Greater => seq![user] + users,
        }
    }
}

/// The users without one.
pub open spec fn without_user(users: Seq<UserModel>, name: Seq<char>) -> Seq<UserModel>
    decreases users.len(),
{
    if users.len() == 0 {
        users
    } else if users[0].name == name {
        users.drop_first()
    } else {
        seq![users[0]] + without_user(users.drop_first(), name)
    }
}

/// Whether a name can be a user's: not empty, and without white space.
pub open spec fn valid_name(name: Seq<char>) -> bool {
    name.len() > 0 && spaceless(name)
}

pub open spec fn header() -> Seq<char> {
    "shardlite-users-v1"@
}

/// A hexadecimal digit, in lower case.
pub open spec fn hex_digit(n: nat) -> char {
    if n < 10 {
        (48 + n) as u8 as char
    } else {
        (87 + n) as u8 as char
    }
}

/// Bytes as two hexadecimal digits each.
pub open spec fn hex(bytes: Seq<u8>) -> Seq<char>
    decreases bytes.len(),
{
    if bytes.len() == 0 {
        Seq::empty()
    } else {
        hex(bytes.drop_last()).push(hex_digit(bytes.last() as nat / 16)).push(
            hex_digit(bytes.last() as nat % 16),
        )
    }
}

/// The value of a hexadecimal digit, in either case.
pub open spec fn hex_value(c: char) -> Option<nat> {
    if '0' <= c && c <= '9' {
        Some((c as int - 48) as nat)
    } else if 'a' <= c && c <= 'f' {
        Some((c as int - 87) as nat)
    } else if 'A' <= c && c <= 'F' {
        Some((c as int - 55) as nat)
    } else {
        None
    }
}

/// The byte that two characters write: two digits, or a `+` and a digit.
pub open spec fn hex_byte(a: char, b: char) -> Option<u8> {
    match hex_value(b) {
        None => None,
        Some(low) => if a == '+' {
            Some(low as u8)
        } else {
            match hex_value(a) {
                None => None,
                Some(high) => Some((high * 16 + low) as u8),
            }
        },
    }
}

/// The bytes that the first `n` pairs of characters write.
pub open spec fn hex_bytes(s: Seq<char>, n: nat) -> Option<Seq<u8>>
    decreases n,
{
    if n == 0 {
        Some(Seq::empty())
    } else {
        match (hex_bytes(s, (n - 1) as nat), hex_byte(s[2 * n - 2], s[2 * n - 1])) {
            (Some(before), Some(b)) => Some(before.push(b)),
            _ => None,
        }
    }
}

/// The key that 64 hexadecimal digits write.
pub open spec fn key_text(s: Seq<char>) -> Option<Seq<u8>> {
    if s.len() == 64 {
        hex_bytes(s, 32)
    } else {
        None
    }
}

pub open spec fn user_line(u: UserModel) -> Seq<char> {
    "user"@ + seq![' '] + (u.name + seq![' '] + (u.role.shown() + seq![' '] + hex(u.key)))
}

/// The lines for the users from `i` on.
pub open spec fn user_lines(users: Seq<UserModel>, i: int) -> Seq<char>
    decreases users.len() - i,
{
    if i < 0 || i >= users.len() {
        Seq::empty()
    } else {
        user_line(users[i]) + seq!['\n'] + user_lines(users, i + 1)
    }
}

/// The users file.
pub open spec fn users_text(users: Seq<UserModel>) -> Seq<char> {
    header() + seq!['\n'] + user_lines(users, 0)
}

/// What is wrong with a users file.
pub ghost enum Fault {
    Header,
    Malformed(nat),
    UnknownRole(Seq<char>),
    BadKey(nat),
}

/// The users after the first `n` lines that follow the header. Empty lines are skipped; a line
/// that is not understood is a fault, for a user who is silently dropped is locked out.
pub open spec fn read_users(all: Seq<Seq<char>>, n: nat) -> Result<Seq<UserModel>, Fault>
    decreases n,
{
    if n == 0 || n >= all.len() {
        Ok(Seq::empty())
    } else {
        match read_users(all, (n - 1) as nat) {
            Err(f) => Err(f),
            Ok(users) => {
                let parts = words(trimmed(all[n as int]));
                if trimmed(all[n as int]).len() == 0 {
                    Ok(users)
                } else if parts.len() != 4 || parts[0] != "user"@ {
                    Err(Fault::Malformed(n + 1))
                } else {
                    match Role::named(parts[2]) {
                        None => Err(Fault::UnknownRole(parts[2])),
                        Some(role) => match key_text(parts[3]) {
                            None => Err(Fault::BadKey(n + 1)),
                            Some(key) => Ok(
                                with_user(users, UserModel { name: parts[1], key, role }),
                            ),
                        },
                    }
                }
            },
        }
    }
}

/// The users that a file holds.
pub open spec fn file_users(text: Seq<char>) -> Result<Seq<UserModel>, Fault> {
    let all = lines(text);
    if all.len() == 0 || all[0] != header() {
        Err(Fault::Header)
    } else {
        read_users(all, (all.len() - 1) as nat)
    }
}

pub open spec fn fault_error(path: Seq<char>, f: Fault) -> ErrorModel {
    match f {
        Fault::Header => ErrorModel::Manifest(
            path + " is not a shardlite users file (missing the `"@ + header() + "` header)"@,
        ),
        Fault::Malformed(n) => ErrorModel::Manifest(
            path + ": line "@ + decimal(n) + " is malformed"@,
        ),
        Fault::UnknownRole(s) => ErrorModel::Protocol(unknown_role(s)),
        Fault::BadKey(n) => ErrorModel::Manifest(
            path + ": line "@ + decimal(n) + " has a bad key"@,
        ),
    }
}

/// The users of a server, and the file they are kept in.
#[derive(Debug)]
pub struct AuthConfig {
    users: Vec<(String, User)>,
    path: Option<String>,
}

impl View for AuthConfig {
    type V = Seq<UserModel>;

    closed spec fn view(&self) -> Seq<UserModel> {
        users_list(self.users@)
    }
}

fn digit(n: u8) -> (r: char)
    requires
        n < 16,
    ensures
        r == hex_digit(n as nat),
{
    if n < 10 {
        (48 + n) as char
    } else {
        (87 + n) as char
    }
}

/// Appends bytes as hexadecimal digits.
pub fn push_hex(out: &mut String, bytes: &[u8])
    ensures
        final(out)@ == old(out)@ + hex(bytes@),
{
    let ghost start = out@;
    let mut i: usize = 0;
    assert(start + hex(bytes@.take(0)) =~= start);
    while i < bytes.len()
        invariant
            i <= bytes@.len(),
            out@ == start + hex(bytes@.take(i as int)),
        decreases bytes@.len() - i,
    {
        let b: u8 = bytes[i];
        proof {
            assert(bytes@.take(i as int + 1).drop_last() =~= bytes@.take(i as int));
        }
        out.push(digit(b / 16));
        out.push(digit(b % 16));
        assert(out@ =~= start + hex(bytes@.take(i as int + 1)));
        i = i + 1;
    }
    assert(bytes@.take(bytes@.len() as int) =~= bytes@);
}

fn value_of_digit(c: char) -> (r: Option<u8>)
    ensures
        hex_value(c) == (match r {
            Some(n) => Some(n as nat),
            None => None,
        }),
        r matches Some(n) ==> n < 16,
{
    if '0' <= c && c <= '9' {
        Some((c as u8) - 48)
    } else if 'a' <= c && c <= 'f' {
        Some((c as u8) - 87)
    } else if 'A' <= c && c <= 'F' {
        Some((c as u8) - 55)
    } else {
        None
    }
}

fn byte_of_digits(a: char, b: char) -> (r: Option<u8>)
    ensures
        r == hex_byte(a, b),
{
    match value_of_digit(b) {
        None => None,
        Some(low) => if a == '+' {
            Some(low)
        } else {
            match value_of_digit(a) {
                None => None,
                Some(high) => Some(high * 16 + low),
            }
        },
    }
}

proof fn lemma_hex_bytes_stop(s: Seq<char>, n: nat, m: nat)
    requires
        n <= m,
        hex_bytes(s, n) is None,
    ensures
        hex_bytes(s, m) is None,
    decreases m - n,
{
    if n < m {
        lemma_hex_bytes_stop(s, n, (m - 1) as nat);
    }
}

fn parse_key(text: &str) -> (r: Option<Key>)
    ensures
        key_text(text@) == (match r {
            Some(k) => Some(k@),
            None => None,
        }),
{
    let chars = chars_of(text);
    if chars.len() != 64 {
        return None;
    }
    let mut key: Key = [0u8; 32];
    let mut i: usize = 0;
    assert(key@.take(0) =~= Seq::empty());
    while i < 32
        invariant
            i <= 32,
            chars@.len() == 64,
            chars@ == text@,
            key@.len() == 32,
            hex_bytes(chars@, i as nat) == Some(key@.take(i as int)),
        decreases 32 - i,
    {
        match byte_of_digits(chars[2 * i], chars[2 * i + 1]) {
            None => {
                proof {
                    assert(hex_bytes(chars@, (i + 1) as nat) is None);
                    lemma_hex_bytes_stop(chars@, (i + 1) as nat, 32);
                }
                return None;
            },
            Some(b) => {
                let ghost before = key@;
                key[i] = b;
                assert(key@.take(i as int + 1) =~= before.take(i as int).push(b));
            },
        }
        i = i + 1;
    }
    assert(key@.take(32) =~= key@);
    Some(key)
}

fn has_space(name: &str) -> (r: bool)
    ensures
        r == !spaceless(name@),
{
    let chars = chars_of(name);
    let mut i: usize = 0;
    while i < chars.len()
        invariant
            i <= chars@.len(),
            chars@ == name@,
            forall|k: int| 0 <= k < i ==> !is_space(#[trigger] chars@[k]),
        decreases chars@.len() - i,
    {
        if space(chars[i]) {
            assert(is_space(name@[i as int]));
            return true;
        }
        i = i + 1;
    }
    false
}

proof fn lemma_with_user_skips(users: Seq<UserModel>, user: UserModel, n: int)
    requires
        0 <= n <= users.len(),
        forall|k: int|
            0 <= k < n ==> name_order((#[trigger] users[k]).name, user.name) == Order::Less,
    ensures
        with_user(users, user) == users.take(n) + with_user(users.skip(n), user),
    decreases n,
{
    if n == 0 {
        assert(users.skip(0) =~= users);
        assert(users.take(0) + with_user(users, user) =~= with_user(users, user));
    } else {
        assert(name_order(users[0].name, user.name) == Order::Less);
        let rest = users.drop_first();
        assert forall|k: int| 0 <= k < n - 1 implies name_order(
            (#[trigger] rest[k]).name,
            user.name,
        ) == Order::Less by {
            assert(rest[k] == users[k + 1]);
        }
        lemma_with_user_skips(rest, user, n - 1);
        assert(rest.skip(n - 1) =~= users.skip(n));
        assert(seq![users[0]] + (rest.take(n - 1) + with_user(users.skip(n), user)) =~= users.take(n)
            + with_user(users.skip(n), user));
    }
}

fn put_user(users: &mut Vec<(String, User)>, name: String, user: User)
    ensures
        users_list(final(users)@) == with_user(
            users_list(old(users)@),
            user_model((name, user)),
        ),
{
    let ghost before = users_list(users@);
    let ghost new = user_model((name, user));
    let mut at: usize = 0;
    let mut found = Order::Greater;
    while at < users.len()
        invariant_except_break
            at <= users@.len(),
            before == users_list(users@),
            new.name == name@,
            found == Order::Greater,
            forall|k: int|
                0 <= k < at ==> name_order((#[trigger] before[k]).name, new.name) == Order::Less,
        ensures
            at <= users@.len(),
            before == users_list(users@),
            found != Order::Less,
            at == users@.len() ==> found == Order::Greater,
            at < users@.len() ==> found == name_order(before[at as int].name, new.name),
            forall|k: int|
                0 <= k < at ==> name_order((#[trigger] before[k]).name, new.name) == Order::Less,
        decreases users@.len() - at,
    {
        assert(before[at as int] == user_model(users@[at as int]));
        let order = order_texts(users[at].0.as_str(), name.as_str());
        if order != Order::Less {
            found = order;
            break;
        }
        at = at + 1;
    }
    proof {
        lemma_with_user_skips(before, new, at as int);
        if at < users@.len() {
            assert(before.skip(at as int)[0] == before[at as int]);
        }
    }
    if found == Order::Equal {
        users.remove(at);
    }
    users.insert(at, (name, user));
    proof {
        let tail = before.skip(at as int);
        if found == Order::Equal {
            assert(users_list(users@) =~= before.take(at as int) + (seq![new] + tail.drop_first()));
        } else {
            assert(with_user(tail, new) =~= seq![new] + tail);
            assert(users_list(users@) =~= before.take(at as int) + (seq![new] + tail));
        }
    }
}

proof fn lemma_user_named_skips(users: Seq<UserModel>, name: Seq<char>, n: int)
    requires
        0 <= n <= users.len(),
        forall|k: int| 0 <= k < n ==> (#[trigger] users[k]).name != name,
    ensures
        user_named(users, name) == user_named(users.skip(n), name),
        without_user(users, name) == users.take(n) + without_user(users.skip(n), name),
    decreases n,
{
    if n == 0 {
        assert(users.skip(0) =~= users);
        assert(users.take(0) + without_user(users, name) =~= without_user(users, name));
    } else {
        assert(users[0].name != name);
        let rest = users.drop_first();
        assert forall|k: int| 0 <= k < n - 1 implies (#[trigger] rest[k]).name != name by {
            assert(rest[k] == users[k + 1]);
        }
        lemma_user_named_skips(rest, name, n - 1);
        assert(rest.skip(n - 1) =~= users.skip(n));
        assert(seq![users[0]] + (rest.take(n - 1) + without_user(users.skip(n), name))
            =~= users.take(n) + without_user(users.skip(n), name));
    }
}

/// The place of a user, or the number of users.
fn place_of(users: &Vec<(String, User)>, name: &str) -> (r: usize)
    ensures
        r <= users@.len(),
        forall|k: int| 0 <= k < r ==> (#[trigger] users_list(users@)[k]).name != name@,
        r < users@.len() ==> users_list(users@)[r as int].name == name@,
{
    let mut i: usize = 0;
    while i < users.len()
        invariant
            i <= users@.len(),
            forall|k: int| 0 <= k < i ==> (#[trigger] users_list(users@)[k]).name != name@,
        decreases users@.len() - i,
    {
        assert(users_list(users@)[i as int] == user_model(users@[i as int]));
        if same(users[i].0.as_str(), name) {
            return i;
        }
        i = i + 1;
    }
    i
}

impl AuthConfig {
    /// The file that the users are kept in.
    pub closed spec fn file(&self) -> Option<Seq<char>> {
        match self.path {
            Some(p) => Some(p@),
            None => None,
        }
    }

    /// Whether the names follow each other in the dictionary, each once, and the keys are whole.
    pub open spec fn wf(&self) -> bool {
        &&& sorted(self@)
        &&& forall|k: int| 0 <= k < self@.len() ==> (#[trigger] self@[k]).key.len() == 32
    }

    /// No users, and no file.
    pub fn new() -> (r: AuthConfig)
        ensures
            r.wf(),
            r@ == Seq::<UserModel>::empty(),
            r.file() is None,
    {
        let r = AuthConfig { users: Vec::new(), path: None };
        assert(r@ =~= Seq::empty());
        r
    }

    /// The users of a file, given its text where there is one. Where there is none, an empty users
    /// file is to be written: here is its text.
    pub fn open(path: &str, text: Option<&str>) -> (r: Result<(AuthConfig, Option<String>), Error>)
        ensures
            r matches Ok(c) ==> c.0.wf(),
            match text {
                None => r matches Ok(c) && c.0@ == Seq::<UserModel>::empty() && c.0.file() == Some(
                    path@,
                ) && (c.1 matches Some(t) && t@ == users_text(Seq::empty())),
                Some(t) => match file_users(t@) {
                    Ok(users) => r matches Ok(c) && c.0@ == users && c.0.file() == Some(path@)
                        && c.1 is None,
                    Err(f) => r matches Err(e) && e@ == fault_error(path@, f),
                },
            },
    {
        let users: Vec<(String, User)> = match text {
            None => Vec::new(),
            Some(t) => match Self::read(path, t) {
                Ok(u) => u,
                Err(e) => {
                    return Err(e);
                },
            },
        };
        proof {
            if text is None {
                assert(users_list(users@) =~= Seq::empty());
            }
        }
        let me = AuthConfig { users, path: Some(path.to_owned()) };
        let fresh = if text.is_none() {
            me.save()
        } else {
            None
        };
        Ok((me, fresh))
    }

    /// With a user more, by the secret.
    pub fn user(self, name: &str, secret: &str, role: Role) -> (r: AuthConfig)
        ensures
            self.wf() ==> r.wf(),
            r@ == with_user(
                self@,
                UserModel { name: name@, key: blake3_of(encode_utf8(secret@)), role },
            ),
            r.file() == self.file(),
    {
        let mut me = self;
        let key = derive_key(secret);
        put_user(&mut me.users, name.to_owned(), User { key, role });
        proof {
            if sorted(self@) {
                law_users_stay_sorted(self@, UserModel { name: name@, key: key@, role });
            }
        }
        me
    }

    /// Creates or replaces a user. The answer is the text to save, where there is a file.
    pub fn create(&mut self, name: &str, key: Key, role: Role) -> (r: Result<Option<String>, Error>)
        ensures
            old(self).wf() ==> final(self).wf(),
            valid_name(name@) ==> user_named(final(self)@, name@) == Some(
                UserModel { name: name@, key: key@, role },
            ),
            final(self).file() == old(self).file(),
            if valid_name(name@) {
                &&& final(self)@ == with_user(
                    old(self)@,
                    UserModel { name: name@, key: key@, role },
                )
                &&& r matches Ok(text) && saved(*final(self), text)
            } else {
                &&& final(self)@ == old(self)@
                &&& r matches Err(e) && e@ == ErrorModel::Protocol(
                    "a user name must be non-empty and contain no whitespace"@,
                )
            },
    {
        if name.is_empty() || has_space(name) {
            return Err(
                Error::Protocol("a user name must be non-empty and contain no whitespace".to_owned()),
            );
        }
        let ghost before = self@;
        put_user(&mut self.users, name.to_owned(), User { key, role });
        proof {
            let user = UserModel { name: name@, key: key@, role };
            law_created_user_is_found(before, user, name@);
            if sorted(before) {
                law_users_stay_sorted(before, user);
            }
        }
        Ok(self.save())
    }

    /// Removes a user; says whether there was one, and the text to save, where there is a file.
    pub fn drop_user(&mut self, name: &str) -> (r: (bool, Option<String>))
        ensures
            old(self).wf() ==> final(self).wf() && user_named(final(self)@, name@) is None,
            final(self).file() == old(self).file(),
            r.0 == (user_named(old(self)@, name@) is Some),
            final(self)@ == without_user(old(self)@, name@),
            if r.0 {
                saved(*final(self), r.1)
            } else {
                r.1 is None
            },
    {
        let ghost before = self@;
        let at: usize = place_of(&self.users, name);
        proof {
            lemma_user_named_skips(before, name@, at as int);
            if at < self.users@.len() {
                assert(before.skip(at as int)[0] == before[at as int]);
            } else {
                assert(before.skip(at as int) =~= Seq::empty());
            }
        }
        if at == self.users.len() {
            assert(before.take(at as int) + Seq::<UserModel>::empty() =~= before);
            assert(user_named(before, name@) is None);
            return (false, None);
        }
        self.users.remove(at);
        proof {
            let tail = before.skip(at as int);
            assert(self@ =~= before.take(at as int) + tail.drop_first());
            if sorted(before) {
                law_dropped_user_is_gone(before, name@, name@);
                assert forall|i: int, j: int| 0 <= i < j < self@.len() implies name_order(
                    (#[trigger] self@[i]).name,
                    (#[trigger] self@[j]).name,
                ) == Order::Less by {
                    let a = if i < at {
                        i
                    } else {
                        i + 1
                    };
                    let b = if j < at {
                        j
                    } else {
                        j + 1
                    };
                    assert(self@[i] == before[a] && self@[j] == before[b]);
                    assert(name_order(before[a].name, before[b].name) == Order::Less);
                }
            }
        }
        (true, self.save())
    }

    /// Names and roles, in dictionary order of the names.
    pub fn list(&self) -> (r: Vec<(String, Role)>)
        ensures
            self.wf() ==> forall|i: int, j: int|
                0 <= i < j < r@.len() ==> name_order(
                    (#[trigger] users_model(r@)[i]).0,
                    (#[trigger] users_model(r@)[j]).0,
                ) == Order::Less,
            users_model(r@) == self@.map_values(|u: UserModel| (u.name, u.role)),
    {
        let ghost model = self@.map_values(|u: UserModel| (u.name, u.role));
        let mut out: Vec<(String, Role)> = Vec::new();
        let mut i: usize = 0;
        assert(users_model(out@) =~= model.take(0));
        while i < self.users.len()
            invariant
                i <= self.users@.len(),
                model == users_list(self.users@).map_values(|u: UserModel| (u.name, u.role)),
                users_model(out@) == model.take(i as int),
            decreases self.users@.len() - i,
        {
            let ghost before = out@;
            out.push((self.users[i].0.clone(), self.users[i].1.role));
            proof {
                assert(users_model(out@) =~= users_model(before).push(model[i as int]));
                assert(model.take(i as int + 1) =~= model.take(i as int).push(model[i as int]));
            }
            i = i + 1;
        }
        assert(model.take(self.users@.len() as int) =~= model);
        out
    }

    pub fn is_empty(&self) -> (r: bool)
        ensures
            r == (self@.len() == 0),
    {
        self.users.len() == 0
    }

    /// The role of a user whose key proves the nonce. A wrong proof and an unknown name are
    /// refused alike.
    pub fn verify(&self, name: &str, nonce: &[u8; 32], proof_bytes: &[u8; 32]) -> (r: Option<Role>)
        ensures
            r == (match user_named(self@, name@) {
                Some(u) => if blake3_keyed_of(u.key, nonce@) == proof_bytes@ {
                    Some(u.role)
                } else {
                    None
                },
                None => None,
            }),
    {
        let at: usize = place_of(&self.users, name);
        proof {
            lemma_user_named_skips(self@, name@, at as int);
            if at < self.users@.len() {
                assert(self@.skip(at as int)[0] == self@[at as int]);
                assert(self@[at as int] == user_model(self.users@[at as int]));
            } else {
                assert(self@.skip(at as int) =~= Seq::empty());
            }
        }
        if at == self.users.len() {
            return None;
        }
        let expected = prove(&self.users[at].1.key, nonce);
        if same_hash(&expected, proof_bytes) {
            Some(self.users[at].1.role)
        } else {
            None
        }
    }

    /// The text of the users file, where there is one.
    fn save(&self) -> (r: Option<String>)
        ensures
            saved(*self, r),
    {
        if self.path.is_none() {
            return None;
        }
        let ghost model = self@;
        let mut out = "shardlite-users-v1".to_owned();
        out.push('\n');
        let ghost head = out@;
        let mut i: usize = 0;
        while i < self.users.len()
            invariant
                i <= self.users@.len(),
                model == users_list(self.users@),
                out@ + user_lines(model, i as int) == head + user_lines(model, 0),
            decreases self.users@.len() - i,
        {
            let ghost before = out@;
            assert(model[i as int] == user_model(self.users@[i as int]));
            out.append("user");
            out.push(' ');
            out.append(self.users[i].0.as_str());
            out.push(' ');
            out.append(self.users[i].1.role.name());
            out.push(' ');
            push_hex(&mut out, &self.users[i].1.key);
            out.push('\n');
            assert(out@ + user_lines(model, i + 1) =~= before + user_lines(model, i as int));
            i = i + 1;
        }
        assert(out@ + user_lines(model, i as int) =~= out@);
        assert(head + user_lines(model, 0) =~= users_text(model));
        Some(out)
    }

    #[verifier::loop_isolation(false)]
    fn read(path: &str, text: &str) -> (r: Result<Vec<(String, User)>, Error>)
        ensures
            match file_users(text@) {
                Ok(users) => r matches Ok(u) && users_list(u@) == users && sorted(users),
                Err(f) => r matches Err(e) && e@ == fault_error(path@, f),
            },
    {
        let all = lines_of(text);
        let ghost model = lines(text@);
        assert(views(all@).len() == all@.len());
        let fits = all.len() > 0 && {
            assert(model[0] == all@[0]@);
            same(all[0].as_str(), "shardlite-users-v1")
        };
        if !fits {
            let mut m = path.to_owned();
            m.append(" is not a shardlite users file (missing the `");
            m.append("shardlite-users-v1");
            m.append("` header)");
            return Err(Error::Manifest(m));
        }
        let mut users: Vec<(String, User)> = Vec::new();
        let mut i: usize = 1;
        assert(users_list(users@) =~= Seq::empty());
        while i < all.len()
            invariant
                1 <= i <= all@.len(),
                read_users(model, (i - 1) as nat) == Ok::<Seq<UserModel>, Fault>(
                    users_list(users@),
                ),
                sorted(users_list(users@)),
            decreases all@.len() - i,
        {
            assert(model[i as int] == all@[i as int]@);
            let number: u64 = i as u64;
            match read_user(all[i].as_str()) {
                UserLine::Blank => {},
                UserLine::User(name, user) => {
                    proof {
                        law_users_stay_sorted(users_list(users@), user_model((name, user)));
                    }
                    put_user(&mut users, name, user);
                },
                UserLine::Malformed => {
                    proof {
                        lemma_read_users_stop(model, i as nat, (model.len() - 1) as nat);
                    }
                    return Err(line_error(path, number, " is malformed"));
                },
                UserLine::BadKey => {
                    proof {
                        lemma_read_users_stop(model, i as nat, (model.len() - 1) as nat);
                    }
                    return Err(line_error(path, number, " has a bad key"));
                },
                UserLine::UnknownRole(e) => {
                    proof {
                        lemma_read_users_stop(model, i as nat, (model.len() - 1) as nat);
                    }
                    return Err(e);
                },
            }
            i = i + 1;
        }
        Ok(users)
    }
}

/// Whether `text` is what is to be saved: the users file, where there is one.
pub open spec fn saved(c: AuthConfig, text: Option<String>) -> bool {
    match c.file() {
        None => text is None,
        Some(_) => text matches Some(t) && t@ == users_text(c@),
    }
}

proof fn lemma_read_users_stop(all: Seq<Seq<char>>, n: nat, m: nat)
    requires
        n <= m < all.len(),
        read_users(all, n) is Err,
    ensures
        read_users(all, m) == read_users(all, n),
    decreases m - n,
{
    if n < m {
        lemma_read_users_stop(all, n, (m - 1) as nat);
    }
}

fn line_error(path: &str, index: u64, what: &str) -> (r: Error)
    requires
        index < u64::MAX,
    ensures
        r@ == ErrorModel::Manifest(path@ + ": line "@ + decimal((index + 1) as nat) + what@),
{
    let mut m = path.to_owned();
    m.append(": line ");
    push_decimal(&mut m, index + 1);
    m.append(what);
    Error::Manifest(m)
}

enum UserLine {
    Blank,
    User(String, User),
    Malformed,
    UnknownRole(Error),
    BadKey,
}

fn read_user(line: &str) -> (r: UserLine)
    ensures
        ({
            let parts = words(trimmed(line@));
            if trimmed(line@).len() == 0 {
                r is Blank
            } else if parts.len() != 4 || parts[0] != "user"@ {
                r is Malformed
            } else {
                match Role::named(parts[2]) {
                    None => r matches UserLine::UnknownRole(e) && e@ == ErrorModel::Protocol(
                        unknown_role(parts[2]),
                    ),
                    Some(role) => match key_text(parts[3]) {
                        None => r is BadKey,
                        Some(key) => r matches UserLine::User(name, user) && user_model(
                            (name, user),
                        ) == (UserModel { name: parts[1], key, role }),
                    },
                }
            }
        }),
{
    let body = trim(line);
    if body.as_str().is_empty() {
        return UserLine::Blank;
    }
    let parts = words_of(body.as_str());
    assert(views(parts@).len() == parts@.len());
    if parts.len() != 4 {
        return UserLine::Malformed;
    }
    assert(views(parts@)[0] == parts@[0]@);
    assert(views(parts@)[1] == parts@[1]@);
    assert(views(parts@)[2] == parts@[2]@);
    assert(views(parts@)[3] == parts@[3]@);
    if !same(parts[0].as_str(), "user") {
        return UserLine::Malformed;
    }
    match Role::parse(parts[2].as_str()) {
        Err(e) => UserLine::UnknownRole(e),
        Ok(role) => match parse_key(parts[3].as_str()) {
            None => UserLine::BadKey,
            Some(key) => UserLine::User(parts[1].clone(), User { key, role }),
        },
    }
}

// ---- laws --------------------------------------------------------------------------------------

/// The client roles are a ladder: whatever a role may do as a client, every role above it may do.
/// The cluster role is off the ladder: it may do what peers do and nothing else, and no client role
/// may do that.
pub proof fn law_role_ladder(low: Role, high: Role, need: Requirement)
    ensures
        low != Role::Cluster && high.step() >= low.step() && low.may(need) ==> high.may(need),
        Role::Cluster.may(need) <==> (need == Requirement::Cluster || need
            == Requirement::Handshake),
        low.may(Requirement::Cluster) <==> low == Role::Cluster,
        !Role::Read.may(Requirement::Write) && !Role::Write.may(Requirement::Admin),
{
}

proof fn lemma_lex_equal(a: Seq<int>, b: Seq<int>)
    requires
        lex_order(a, b) == Order::Equal,
    ensures
        a == b,
    decreases a.len(),
{
    if a.len() > 0 && b.len() > 0 {
        lemma_lex_equal(a.drop_first(), b.drop_first());
        assert(a =~= seq![a[0]] + a.drop_first());
        assert(b =~= seq![b[0]] + b.drop_first());
    } else {
        assert(a =~= b);
    }
}

proof fn lemma_lex_same(a: Seq<int>)
    ensures
        lex_order(a, a) == Order::Equal,
    decreases a.len(),
{
    if a.len() > 0 {
        lemma_lex_same(a.drop_first());
    }
}

/// Names that compare as equal are the same name.
proof fn lemma_name_order_equal(a: Seq<char>, b: Seq<char>)
    ensures
        name_order(a, b) == Order::Equal <==> a == b,
{
    if name_order(a, b) == Order::Equal {
        lemma_lex_equal(char_codes(a), char_codes(b));
        assert(a.len() == char_codes(a).len());
        assert forall|i: int| 0 <= i < a.len() implies a[i] == b[i] by {
            assert(char_codes(a)[i] == a[i] as int);
            assert(char_codes(b)[i] == b[i] as int);
        }
        assert(a =~= b);
    }
    if a == b {
        lemma_lex_same(char_codes(a));
    }
}

/// A user that is created is found under the name, and the others are as they were.
pub proof fn law_created_user_is_found(users: Seq<UserModel>, user: UserModel, other: Seq<char>)
    ensures
        user_named(with_user(users, user), user.name) == Some(user),
        other != user.name ==> user_named(with_user(users, user), other) == user_named(
            users,
            other,
        ),
    decreases users.len(),
{
    let after = with_user(users, user);
    if users.len() == 0 {
        assert(after[0] == user);
        assert(after.drop_first() =~= Seq::empty());
        assert(user_named(after.drop_first(), other) is None);
    } else {
        lemma_name_order_equal(users[0].name, user.name);
        match name_order(users[0].name, user.name) {
            Order::Less => {
                law_created_user_is_found(users.drop_first(), user, other);
                assert(after[0] == users[0]);
                assert(after.drop_first() =~= with_user(users.drop_first(), user));
            },
            Order::Equal => {
                assert(after[0] == user);
                assert(after.drop_first() =~= users.drop_first());
            },
            Order::Greater => {
                assert(after[0] == user);
                assert(after.drop_first() =~= users);
            },
        }
    }
}

/// Whether names follow each other in the dictionary, each once.
pub open spec fn sorted(users: Seq<UserModel>) -> bool {
    forall|i: int, j: int|
        0 <= i < j < users.len() ==> name_order(
            (#[trigger] users[i]).name,
            (#[trigger] users[j]).name,
        ) == Order::Less
}

/// A user that is dropped is gone, and the others are as they were.
pub proof fn law_dropped_user_is_gone(users: Seq<UserModel>, name: Seq<char>, other: Seq<char>)
    requires
        sorted(users),
    ensures
        user_named(without_user(users, name), name) is None,
        other != name ==> user_named(without_user(users, name), other) == user_named(users, other),
    decreases users.len(),
{
    if users.len() > 0 {
        let rest = users.drop_first();
        assert forall|i: int, j: int| 0 <= i < j < rest.len() implies name_order(
            (#[trigger] rest[i]).name,
            (#[trigger] rest[j]).name,
        ) == Order::Less by {
            assert(rest[i] == users[i + 1] && rest[j] == users[j + 1]);
        }
        if users[0].name == name {
            assert forall|k: int| 0 <= k < rest.len() implies (#[trigger] rest[k]).name != name by {
                assert(rest[k] == users[k + 1]);
                assert(name_order(users[0].name, users[k + 1].name) == Order::Less);
                lemma_name_order_equal(users[0].name, users[k + 1].name);
            }
            lemma_user_named_skips(rest, name, rest.len() as int);
            assert(rest.skip(rest.len() as int) =~= Seq::empty());
        } else {
            law_dropped_user_is_gone(rest, name, other);
            let after = without_user(users, name);
            assert(after[0] == users[0]);
            assert(after.drop_first() =~= without_user(rest, name));
        }
    }
}

/// The users stay in dictionary order when one is created.
pub proof fn law_users_stay_sorted(users: Seq<UserModel>, user: UserModel)
    requires
        sorted(users),
    ensures
        sorted(with_user(users, user)),
        forall|k: int|
            0 <= k < with_user(users, user).len() ==> (#[trigger] with_user(users, user)[k]) == user
                || users.contains(with_user(users, user)[k]),
    decreases users.len(),
{
    let after = with_user(users, user);
    if users.len() > 0 {
        let rest = users.drop_first();
        assert forall|i: int, j: int| 0 <= i < j < rest.len() implies name_order(
            (#[trigger] rest[i]).name,
            (#[trigger] rest[j]).name,
        ) == Order::Less by {
            assert(rest[i] == users[i + 1] && rest[j] == users[j + 1]);
        }
        lemma_name_order_equal(users[0].name, user.name);
        match name_order(users[0].name, user.name) {
            Order::Less => {
                law_users_stay_sorted(rest, user);
                let tail = with_user(rest, user);
                assert forall|j: int| 0 <= j < tail.len() implies name_order(
                    users[0].name,
                    (#[trigger] tail[j]).name,
                ) == Order::Less by {
                    if tail[j] != user {
                        let k = choose|k: int| 0 <= k < rest.len() && rest[k] == tail[j];
                        assert(users[k + 1] == rest[k]);
                        assert(name_order(users[0].name, users[k + 1].name) == Order::Less);
                    }
                }
                assert forall|i: int, j: int| 0 <= i < j < after.len() implies name_order(
                    (#[trigger] after[i]).name,
                    (#[trigger] after[j]).name,
                ) == Order::Less by {
                    assert(after[j] == tail[j - 1]);
                    if i > 0 {
                        assert(after[i] == tail[i - 1]);
                    }
                }
                assert forall|k: int| 0 <= k < after.len() implies (#[trigger] after[k]) == user
                    || users.contains(after[k]) by {
                    if k == 0 {
                        assert(users[0] == after[0]);
                    } else if tail[k - 1] != user {
                        let m = choose|m: int| 0 <= m < rest.len() && rest[m] == tail[k - 1];
                        assert(users[m + 1] == after[k]);
                    }
                }
            },
            Order::Equal => {
                assert forall|i: int, j: int| 0 <= i < j < after.len() implies name_order(
                    (#[trigger] after[i]).name,
                    (#[trigger] after[j]).name,
                ) == Order::Less by {
                    assert(after[j] == users[j]);
                    if i > 0 {
                        assert(after[i] == users[i]);
                    }
                    assert(name_order(users[i].name, users[j].name) == Order::Less);
                }
                assert forall|k: int| 0 <= k < after.len() implies (#[trigger] after[k]) == user
                    || users.contains(after[k]) by {
                    if k > 0 {
                        assert(users[k] == after[k]);
                    }
                }
            },
            Order::Greater => {
                lemma_lex_flips(char_codes(users[0].name), char_codes(user.name));
                assert forall|j: int| 0 <= j < users.len() implies name_order(
                    user.name,
                    (#[trigger] users[j]).name,
                ) == Order::Less by {
                    if j > 0 {
                        assert(name_order(users[0].name, users[j].name) == Order::Less);
                        lemma_lex_transitive(
                            char_codes(user.name),
                            char_codes(users[0].name),
                            char_codes(users[j].name),
                        );
                    }
                }
                assert forall|i: int, j: int| 0 <= i < j < after.len() implies name_order(
                    (#[trigger] after[i]).name,
                    (#[trigger] after[j]).name,
                ) == Order::Less by {
                    assert(after[j] == users[j - 1]);
                    if i > 0 {
                        assert(after[i] == users[i - 1]);
                    }
                }
                assert forall|k: int| 0 <= k < after.len() implies (#[trigger] after[k]) == user
                    || users.contains(after[k]) by {
                    if k > 0 {
                        assert(users[k - 1] == after[k]);
                    }
                }
            },
        }
    }
}

/// The words of the users file, letter by letter.
proof fn lemma_words()
    ensures
        valid_name("user"@),
        valid_name("read"@),
        valid_name("write"@),
        valid_name("admin"@),
        valid_name("cluster"@),
        "read"@ != "write"@,
        "read"@ != "admin"@,
        "read"@ != "cluster"@,
        "write"@ != "admin"@,
        "write"@ != "cluster"@,
        "admin"@ != "cluster"@,
{
    reveal_strlit("user");
    reveal_strlit("read");
    reveal_strlit("write");
    reveal_strlit("admin");
    reveal_strlit("cluster");
    assert forall|k: int| 0 <= k < 4 implies !is_space(#[trigger] "user"@[k]) by {
        if k == 0 {
            assert("user"@[0] == 'u');
        }
        if k == 1 {
            assert("user"@[1] == 's');
        }
        if k == 2 {
            assert("user"@[2] == 'e');
        }
        if k == 3 {
            assert("user"@[3] == 'r');
        }
    }
    assert forall|k: int| 0 <= k < 4 implies !is_space(#[trigger] "read"@[k]) by {
        if k == 0 {
            assert("read"@[0] == 'r');
        }
        if k == 1 {
            assert("read"@[1] == 'e');
        }
        if k == 2 {
            assert("read"@[2] == 'a');
        }
        if k == 3 {
            assert("read"@[3] == 'd');
        }
    }
    assert forall|k: int| 0 <= k < 5 implies !is_space(#[trigger] "write"@[k]) by {
        if k == 0 {
            assert("write"@[0] == 'w');
        }
        if k == 1 {
            assert("write"@[1] == 'r');
        }
        if k == 2 {
            assert("write"@[2] == 'i');
        }
        if k == 3 {
            assert("write"@[3] == 't');
        }
        if k == 4 {
            assert("write"@[4] == 'e');
        }
    }
    assert forall|k: int| 0 <= k < 5 implies !is_space(#[trigger] "admin"@[k]) by {
        if k == 0 {
            assert("admin"@[0] == 'a');
        }
        if k == 1 {
            assert("admin"@[1] == 'd');
        }
        if k == 2 {
            assert("admin"@[2] == 'm');
        }
        if k == 3 {
            assert("admin"@[3] == 'i');
        }
        if k == 4 {
            assert("admin"@[4] == 'n');
        }
    }
    assert forall|k: int| 0 <= k < 7 implies !is_space(#[trigger] "cluster"@[k]) by {
        if k == 0 {
            assert("cluster"@[0] == 'c');
        }
        if k == 1 {
            assert("cluster"@[1] == 'l');
        }
        if k == 2 {
            assert("cluster"@[2] == 'u');
        }
        if k == 3 {
            assert("cluster"@[3] == 's');
        }
        if k == 4 {
            assert("cluster"@[4] == 't');
        }
        if k == 5 {
            assert("cluster"@[5] == 'e');
        }
        if k == 6 {
            assert("cluster"@[6] == 'r');
        }
    }
    assert("read"@.len() == 4 && "write"@.len() == 5 && "admin"@.len() == 5 && "cluster"@.len() == 7);
    assert("write"@[0] == 'w' && "admin"@[0] == 'a');
    assert("user"@.len() == 4);
}

proof fn lemma_header()
    ensures
        forall|k: int| 0 <= k < header().len() ==> #[trigger] header()[k] != '\n' && header()[k]
            != '\r',
{
    reveal_strlit("shardlite-users-v1");
    let s = header();
    assert forall|k: int| 0 <= k < s.len() implies #[trigger] s[k] != '\n' && s[k] != '\r' by {
        if k == 0 {
            assert(s[0] == 's');
        }
        if k == 1 {
            assert(s[1] == 'h');
        }
        if k == 2 {
            assert(s[2] == 'a');
        }
        if k == 3 {
            assert(s[3] == 'r');
        }
        if k == 4 {
            assert(s[4] == 'd');
        }
        if k == 5 {
            assert(s[5] == 'l');
        }
        if k == 6 {
            assert(s[6] == 'i');
        }
        if k == 7 {
            assert(s[7] == 't');
        }
        if k == 8 {
            assert(s[8] == 'e');
        }
        if k == 9 {
            assert(s[9] == '-');
        }
        if k == 10 {
            assert(s[10] == 'u');
        }
        if k == 11 {
            assert(s[11] == 's');
        }
        if k == 12 {
            assert(s[12] == 'e');
        }
        if k == 13 {
            assert(s[13] == 'r');
        }
        if k == 14 {
            assert(s[14] == 's');
        }
        if k == 15 {
            assert(s[15] == '-');
        }
        if k == 16 {
            assert(s[16] == 'v');
        }
        if k == 17 {
            assert(s[17] == '1');
        }
    }
}

proof fn lemma_hex_digit(n: nat)
    requires
        n < 16,
    ensures
        hex_value(hex_digit(n)) == Some(n),
        !is_space(hex_digit(n)),
        hex_digit(n) != '+',
{
}

proof fn lemma_hex_shape(bytes: Seq<u8>)
    ensures
        hex(bytes).len() == 2 * bytes.len(),
        spaceless(hex(bytes)),
        forall|i: int|
            0 <= i < bytes.len() ==> hex(bytes)[2 * i] == hex_digit(
                (#[trigger] bytes[i]) as nat / 16,
            ) && hex(bytes)[2 * i + 1] == hex_digit(bytes[i] as nat % 16),
    decreases bytes.len(),
{
    if bytes.len() > 0 {
        let rest = bytes.drop_last();
        lemma_hex_shape(rest);
        let s = hex(bytes);
        lemma_hex_digit(bytes.last() as nat / 16);
        lemma_hex_digit(bytes.last() as nat % 16);
        assert forall|k: int| 0 <= k < s.len() implies !is_space(#[trigger] s[k]) by {
            if k < hex(rest).len() {
                assert(s[k] == hex(rest)[k]);
            }
        }
        assert forall|i: int| 0 <= i < bytes.len() implies s[2 * i] == hex_digit(
            (#[trigger] bytes[i]) as nat / 16,
        ) && s[2 * i + 1] == hex_digit(bytes[i] as nat % 16) by {
            if i < rest.len() {
                assert(rest[i] == bytes[i]);
                assert(s[2 * i] == hex(rest)[2 * i]);
                assert(s[2 * i + 1] == hex(rest)[2 * i + 1]);
            }
        }
    }
}

proof fn lemma_hex_bytes(bytes: Seq<u8>, n: nat)
    requires
        n <= bytes.len(),
    ensures
        hex_bytes(hex(bytes), n) == Some(bytes.take(n as int)),
    decreases n,
{
    if n == 0 {
        assert(bytes.take(0) =~= Seq::empty());
    } else {
        lemma_hex_bytes(bytes, (n - 1) as nat);
        lemma_hex_shape(bytes);
        let b = bytes[n - 1];
        assert(hex(bytes)[2 * (n - 1)] == hex_digit(b as nat / 16));
        assert(hex(bytes)[2 * (n - 1) + 1] == hex_digit(b as nat % 16));
        lemma_hex_digit(b as nat / 16);
        lemma_hex_digit(b as nat % 16);
        assert((b as nat / 16) * 16 + b as nat % 16 == b as nat);
        assert(bytes.take(n as int) =~= bytes.take(n - 1).push(b));
    }
}

/// A key that is written in hexadecimal digits is read back.
pub proof fn law_key_reads_back(key: Seq<u8>)
    requires
        key.len() == 32,
    ensures
        key_text(hex(key)) == Some(key),
{
    lemma_hex_shape(key);
    lemma_hex_bytes(key, 32);
    assert(key.take(32) =~= key);
}

proof fn lemma_user_line(u: UserModel)
    requires
        valid_name(u.name),
        u.key.len() == 32,
    ensures
        words(trimmed(user_line(u))) == seq!["user"@, u.name, u.role.shown(), hex(u.key)],
        trimmed(user_line(u)).len() > 0,
        Role::named(u.role.shown()) == Some(u.role),
        forall|k: int| 0 <= k < user_line(u).len() ==> #[trigger] user_line(u)[k] != '\n'
            && user_line(u)[k] != '\r',
{
    lemma_words();
    lemma_hex_shape(u.key);
    let role = u.role.shown();
    assert(valid_name(role));
    let key = hex(u.key);
    let line = user_line(u);
    let tail = u.name + seq![' '] + (role + seq![' '] + key);
    lemma_first_word("user"@, tail);
    lemma_first_word(u.name, role + seq![' '] + key);
    lemma_first_word(role, key);
    lemma_first_word(key, Seq::empty());
    assert(words(line) =~= seq!["user"@, u.name, role, key]);
    assert(line[0] == "user"@[0]);
    assert(!is_space("user"@[0]));
    assert(line.last() == key[key.len() - 1]);
    assert(!is_space(key[key.len() - 1]));
    assert(trimmed(line) == line);
    assert forall|k: int| 0 <= k < line.len() implies #[trigger] line[k] != '\n' && line[k]
        != '\r' by {
        let a = "user"@.len() as int;
        let b = a + 1 + u.name.len();
        let c = b + 1 + role.len();
        if k < a {
            assert(line[k] == "user"@[k]);
            assert(!is_space("user"@[k]));
        } else if k == a {
            assert(line[k] == ' ');
        } else if k < b {
            assert(line[k] == u.name[k - a - 1]);
            assert(!is_space(u.name[k - a - 1]));
        } else if k == b {
            assert(line[k] == ' ');
        } else if k < c {
            assert(line[k] == role[k - b - 1]);
            assert(!is_space(role[k - b - 1]));
        } else if k == c {
            assert(line[k] == ' ');
        } else {
            assert(line[k] == key[k - c - 1]);
            assert(!is_space(key[k - c - 1]));
        }
    }
}

proof fn lemma_append_user(users: Seq<UserModel>, user: UserModel)
    requires
        forall|k: int|
            0 <= k < users.len() ==> name_order((#[trigger] users[k]).name, user.name)
                == Order::Less,
    ensures
        with_user(users, user) == users.push(user),
{
    lemma_with_user_skips(users, user, users.len() as int);
    assert(users.skip(users.len() as int) =~= Seq::empty());
    assert(users.take(users.len() as int) + seq![user] =~= users.push(user));
}

proof fn lemma_reads_user_lines(all: Seq<Seq<char>>, users: Seq<UserModel>, i: int)
    requires
        0 <= i <= users.len(),
        sorted(users),
        forall|k: int|
            0 <= k < users.len() ==> valid_name((#[trigger] users[k]).name) && users[k].key.len()
                == 32,
        all.len() >= 1 + i,
        all.skip(1 + i) == lines(user_lines(users, i)),
        read_users(all, i as nat) == Ok::<Seq<UserModel>, Fault>(users.take(i)),
    ensures
        read_users(all, (all.len() - 1) as nat) == Ok::<Seq<UserModel>, Fault>(users),
    decreases users.len() - i,
{
    if i == users.len() {
        assert(all.skip(1 + i).len() == 0);
        assert(users.take(i) =~= users);
    } else {
        let u = users[i];
        let rest = user_lines(users, i + 1);
        lemma_user_line(u);
        law_key_reads_back(u.key);
        lemma_first_line_of(user_line(u), rest);
        let here = seq![user_line(u)] + lines(rest);
        assert(here[0] == user_line(u));
        assert(all.skip(1 + i).len() == all.len() - 1 - i);
        assert(all[1 + i] == all.skip(1 + i)[0]);
        let parts = words(trimmed(all[i + 1]));
        assert(parts[0] == "user"@ && parts[1] == u.name && parts[2] == u.role.shown() && parts[3]
            == hex(u.key));
        let before = users.take(i);
        assert forall|k: int| 0 <= k < before.len() implies name_order(
            (#[trigger] before[k]).name,
            u.name,
        ) == Order::Less by {
            assert(before[k] == users[k]);
            assert(name_order(users[k].name, users[i].name) == Order::Less);
        }
        lemma_append_user(before, u);
        assert(users.take(i + 1) =~= before.push(u));
        assert(all.skip(2 + i) =~= here.subrange(1, here.len() as int));
        assert(here.subrange(1, here.len() as int) =~= lines(rest));
        lemma_reads_user_lines(all, users, i + 1);
    }
}

/// What is written to the users file is read back from it: the same users, with the same keys and
/// roles.
pub proof fn law_users_read_back(users: Seq<UserModel>)
    requires
        sorted(users),
        forall|k: int|
            0 <= k < users.len() ==> valid_name((#[trigger] users[k]).name) && users[k].key.len()
                == 32,
    ensures
        file_users(users_text(users)) == Ok::<Seq<UserModel>, Fault>(users),
{
    lemma_header();
    lemma_first_line_of(header(), user_lines(users, 0));
    let all = lines(users_text(users));
    assert(all =~= seq![header()] + lines(user_lines(users, 0)));
    assert(all[0] == header());
    assert(all.skip(1) =~= lines(user_lines(users, 0)));
    assert(users.take(0) =~= Seq::empty());
    lemma_reads_user_lines(all, users, 0);
}

/// Whoever has the key of a user is let in with that user's role, whatever the nonce: the proof
/// made with the key is the one that is expected.
pub proof fn law_the_key_proves_the_role(users: Seq<UserModel>, user: UserModel, nonce: Seq<u8>)
    ensures
        user_named(with_user(users, user), user.name) matches Some(u) && u.role == user.role
            && blake3_keyed_of(u.key, nonce) == blake3_keyed_of(user.key, nonce),
{
    law_created_user_is_found(users, user, user.name);
}

} // verus!
