//! Accounts and what they hand out: API tokens for agents, and invite codes
//! that let the next person register.

use vstd::prelude::*;
use vstd::utf8::encode_utf8;

use crate::crypto::{is_base62, random_base62, sha256, sha256_digest};
use crate::text::{append_str, chars_of, string_of, trim, trimmed};

verus! {

/// The routes that register, log in and out, and name the signed-in account.
pub struct AuthApi;

/// The routes that list, mint and revoke API tokens.
pub struct TokensApi;

/// The routes that list, mint and withdraw invite codes.
pub struct InvitesApi;

pub const TOKEN_PREFIX: &'static str = "pem_";

/// An API token as it is minted: shown once, then kept only as its digest and
/// the prefix that lets its owner recognise it in a list.
pub struct NewToken {
    pub name: String,
    pub token: String,
    pub token_prefix: String,
    pub token_hash: Vec<u8>,
}

/// The API token named `name` (trimmed) made of forty drawn characters: `pem_`
/// and the draw, the first twelve characters as the prefix its owner
/// recognises it by, and the digest that is all the store keeps.
pub fn api_token_from(name: &str, drawn: &str) -> (t: NewToken)
    requires
        drawn@.len() == 40,
    ensures
        t.name@ == trim(name@),
        t.token@ == TOKEN_PREFIX@ + drawn@,
        t.token_prefix@ == t.token@.take(12),
        t.token_hash@ == sha256_digest(encode_utf8(t.token@)),
{
    proof {
        reveal_strlit("pem_");
    }
    let mut t = chars_of(TOKEN_PREFIX);
    append_str(&mut t, drawn);
    let mut prefix: Vec<char> = Vec::new();
    let mut i: usize = 0;
    while i < 12
        invariant
            i <= 12,
            t@.len() == 44,
            prefix@ == t@.take(i as int),
        decreases 12 - i,
    {
        prefix.push(t[i]);
        i = i + 1;
        assert(prefix@ =~= t@.take(i as int));
    }
    let token = string_of(&t);
    let token_hash = sha256(token.as_str());
    NewToken { name: string_of(&trimmed(&chars_of(name))), token, token_prefix: string_of(&prefix), token_hash }
}

/// Mints an API token named `name` (trimmed): `pem_` and forty characters of
/// `[0-9A-Za-z]` drawn from the random source, as `api_token_from` makes it.
/// `Err` when the name is blank, before anything is drawn; `Ok(None)` when the
/// random source fails.
pub fn new_api_token(name: &str) -> (out: Result<Option<NewToken>, String>)
    ensures
        trim(name@).len() == 0 <==> out is Err,
        out matches Err(m) ==> m@ == "name must not be empty"@,
        out matches Ok(Some(t)) ==> exists|drawn: Seq<char>|
            {
                &&& drawn.len() == 40
                &&& forall|i: int| 0 <= i < 40 ==> is_base62(#[trigger] drawn[i])
                &&& #[trigger] (TOKEN_PREFIX@ + drawn) == t.token@
                &&& t.name@ == trim(name@)
                &&& t.token_prefix@ == t.token@.take(12)
                &&& t.token_hash@ == sha256_digest(encode_utf8(t.token@))
            },
{
    let n = trimmed(&chars_of(name));
    if n.len() == 0 {
        return Err(string_of(&chars_of("name must not be empty")));
    }
    let drawn = match random_base62(40) {
        Some(r) => r,
        None => return Ok(None),
    };
    let t = api_token_from(name, drawn.as_str());
    assert(TOKEN_PREFIX@ + drawn@ == t.token@);
    Ok(Some(t))
}

/// Characters in an invite code.
pub const INVITE_CODE_LEN: usize = 16;

/// Mints an invite code of sixteen characters of `[0-9A-Za-z]`, or `None`
/// when the random source fails.
pub fn new_invite_code() -> (out: Option<String>)
    ensures
        out matches Some(c) ==> c@.len() == 16 && forall|i: int| 0 <= i < 16 ==> is_base62(#[trigger] c@[i]),
{
    random_base62(INVITE_CODE_LEN)
}

/// How a registration is admitted once the number of accounts, and the invite
/// it gives, are known.
pub enum Admission {
    /// The first account: it needs no invite and becomes admin.
    Admin,
    /// A later account, which claims this unused invite.
    UseInvite(i64),
    /// No invite given, or none unused under that code: refused before the
    /// username is looked at, so a caller without a valid invite cannot probe
    /// which usernames exist.
    BadInvite,
}

pub open spec fn admission(user_count: i64, invite_given: bool, invite_found: Option<i64>) -> Admission {
    if user_count == 0 {
        Admission::Admin
    } else if !invite_given {
        Admission::BadInvite
    } else {
        match invite_found {
            Some(id) => Admission::UseInvite(id),
            None => Admission::BadInvite,
        }
    }
}

/// The first step of a registration, after its name and password passed
/// `check_registration`: the first account becomes admin without an invite;
/// every later one must give a code that names an unused invite.
/// `invite_found` is the unused invite the store holds under the code given.
pub fn register_step(user_count: i64, invite_given: bool, invite_found: Option<i64>) -> (out: Admission)
    ensures
        out == admission(user_count, invite_given, invite_found),
{
    if user_count == 0 {
        Admission::Admin
    } else if !invite_given {
        Admission::BadInvite
    } else {
        match invite_found {
            Some(id) => Admission::UseInvite(id),
            None => Admission::BadInvite,
        }
    }
}

/// How a registration that got past its invite ends.
pub enum RegisterOutcome {
    Created,
    UsernameTaken,
    BadInvite,
}

pub open spec fn insert_outcome(unique_violation: bool, claimed_rows: Option<u64>) -> RegisterOutcome {
    if unique_violation {
        RegisterOutcome::UsernameTaken
    } else if claimed_rows == Some(0u64) {
        RegisterOutcome::BadInvite
    } else {
        RegisterOutcome::Created
    }
}

/// The last step: the account row was inserted, or refused as a duplicate
/// name, and then the invite, if one is used, was claimed. `claimed_rows` is
/// how many unused invites the claim took (`None` for the first account,
/// which claims none): a claim that took none lost a race for the invite.
pub fn after_insert(unique_violation: bool, claimed_rows: Option<u64>) -> (o: RegisterOutcome)
    ensures
        o == insert_outcome(unique_violation, claimed_rows),
{
    if unique_violation {
        RegisterOutcome::UsernameTaken
    } else {
        match claimed_rows {
            Some(0) => RegisterOutcome::BadInvite,
            _ => RegisterOutcome::Created,
        }
    }
}

/// A whole registration, from the account count and the invite to how it
/// ends: a refused invite ends it before the account row is tried.
pub open spec fn registration(
    user_count: i64,
    invite_given: bool,
    invite_found: Option<i64>,
    unique_violation: bool,
    claimed_rows: Option<u64>,
) -> RegisterOutcome {
    match admission(user_count, invite_given, invite_found) {
        Admission::BadInvite => RegisterOutcome::BadInvite,
        _ => insert_outcome(unique_violation, claimed_rows),
    }
}

/// The first account gets in as admin whatever invite it gives, every later
/// one only with an unused invite, and whether a username is taken is told
/// only to a caller that got past the invite.
pub proof fn lemma_registration_admits_first_or_invited(
    user_count: i64,
    invite_given: bool,
    invite_found: Option<i64>,
    unique_violation: bool,
    claimed_rows: Option<u64>,
)
    ensures
        user_count == 0 ==> admission(user_count, invite_given, invite_found) is Admin,
        user_count != 0 && !(invite_given && invite_found is Some) ==> registration(
            user_count,
            invite_given,
            invite_found,
            unique_violation,
            claimed_rows,
        ) is BadInvite,
        registration(user_count, invite_given, invite_found, unique_violation, claimed_rows) is UsernameTaken
            ==> user_count == 0 || (invite_given && invite_found is Some),
        registration(user_count, invite_given, invite_found, unique_violation, claimed_rows) is Created ==> (
        user_count == 0 || (invite_given && invite_found is Some)),
{
}

/// What registration reads and writes in the store, as plain values: the
/// names of the accounts, and each invite code with its id and whether it is
/// used.
pub type RegistrationStore = (Set<Seq<char>>, Map<Seq<char>, (i64, bool)>);

/// The unused invite a code names in the store, if any.
pub open spec fn unused_invite(store: RegistrationStore, code: Option<Seq<char>>) -> Option<i64> {
    match code {
        Some(c) => if store.1.contains_key(c) && !store.1[c].1 {
            Some(store.1[c].0)
        } else {
            None
        },
        None => None,
    }
}

/// The account count as `register_step` sees it: none, or some.
pub open spec fn account_count(store: RegistrationStore) -> i64 {
    if store.0 == Set::<Seq<char>>::empty() {
        0
    } else {
        1
    }
}

/// One registration run against the store in one transaction: admission by
/// `register_step`, then the account row (refused when the name exists), then
/// the claim of the invite, which takes its one row because the transaction
/// saw it unused. Only a registration that ends `Created` commits: the account
/// is added and its invite marked used. Any other outcome leaves the store as
/// it was.
pub open spec fn register_in(store: RegistrationStore, name: Seq<char>, code: Option<Seq<char>>) -> (
    RegistrationStore,
    RegisterOutcome,
) {
    let admitted = admission(account_count(store), code is Some, unused_invite(store, code));
    let claimed: Option<u64> = match admitted {
        Admission::UseInvite(_) => Some(1u64),
        _ => None,
    };
    let outcome = registration(
        account_count(store),
        code is Some,
        unused_invite(store, code),
        store.0.contains(name),
        claimed,
    );
    if outcome is Created {
        let invites = match admitted {
            Admission::UseInvite(id) => store.1.insert(code->0, (id, true)),
            _ => store.1,
        };
        ((store.0.insert(name), invites), outcome)
    } else {
        (store, outcome)
    }
}

/// Registrations against the store, one after another: the first account
/// gets in with no invite and is the admin; after it, no account gets in
/// without an unused invite; a used invite lets nobody else in; and a name
/// already taken is refused without using up the invite it came with.
pub proof fn lemma_registrations_in_sequence(
    store: RegistrationStore,
    name: Seq<char>,
    other: Seq<char>,
    code: Option<Seq<char>>,
)
    ensures
        store.0 == Set::<Seq<char>>::empty() ==> (register_in(store, name, code).1 is Created && admission(
            account_count(store),
            code is Some,
            unused_invite(store, code),
        ) is Admin),
        store.0 != Set::<Seq<char>>::empty() && unused_invite(store, code) is None ==> register_in(
            store,
            name,
            code,
        ) == (store, RegisterOutcome::BadInvite),
        store.0 != Set::<Seq<char>>::empty() && unused_invite(store, code) is Some && store.0.contains(name)
            ==> register_in(store, name, code) == (store, RegisterOutcome::UsernameTaken),
        store.0 != Set::<Seq<char>>::empty() && unused_invite(store, code) is Some && !store.0.contains(name)
            ==> register_in(store, name, code).1 is Created,
        ({
            let after = register_in(store, name, code).0;
            store.0 != Set::<Seq<char>>::empty() && register_in(store, name, code).1 is Created ==> unused_invite(
                after,
                code,
            ) is None && register_in(after, other, code).1 is BadInvite
        }),
{
    let after = register_in(store, name, code).0;
    if store.0 != Set::<Seq<char>>::empty() && register_in(store, name, code).1 is Created {
        assert(after.0.contains(name));
        assert(after.0 != Set::<Seq<char>>::empty());
        let c = code->0;
        assert(after.1[c].1);
    }
}

} // verus!
