//! Hook results and the thread identity that hook processes receive as reserved environment
//! variables, applied after any configured environment so that configuration cannot spoof it.
use vstd::prelude::*;

use crate::ids::{uuid_text, SessionId, ThreadId, ThreadToken};
use crate::text::{chars_equal, str_chars, string_of};

verus! {

/// Environment variable naming the thread that owns the hooks.
pub const CODEX_THREAD_ID_ENV_VAR: &'static str = "CODEX_THREAD_ID";

/// Environment variable naming the parent thread, for a child thread.
pub const CODEX_PARENT_THREAD_ID_ENV_VAR: &'static str = "CODEX_PARENT_THREAD_ID";

/// Environment variable naming the session.
pub const CODEX_SESSION_ID_ENV_VAR: &'static str = "CODEX_SESSION_ID";

/// Environment variable carrying the thread's secret token.
pub const CODEX_THREAD_TOKEN_ENV_VAR: &'static str = "CODEX_THREAD_TOKEN";

/// Why a hook failed.
#[derive(Clone, Debug, PartialEq, Eq)]
pub struct HookError {
    pub message: String,
}

/// The outcome of running one hook.
#[derive(Debug)]
pub enum HookResult {
    /// The hook completed successfully.
    Success,
    /// The hook failed, but later hooks still run and the operation continues.
    FailedContinue(HookError),
    /// The hook failed; later hooks do not run and the operation is aborted.
    FailedAbort(HookError),
}

impl HookResult {
    /// Whether the operation must be aborted.
    pub fn should_abort_operation(&self) -> (abort: bool)
        ensures
            abort == (self is FailedAbort),
    {
        match self {
            HookResult::FailedAbort(_) => true,
            _ => false,
        }
    }
}

/// A hook's name and its outcome.
#[derive(Debug)]
pub struct HookResponse {
    pub hook_name: String,
    pub result: HookResult,
}

/// Identity of the thread whose hooks are being run.
#[derive(Clone, PartialEq, Eq)]
pub struct HookSessionIdentity {
    /// The thread that owns the hooks.
    pub thread_id: ThreadId,
    /// The immediate parent thread; `None` for a root thread.
    pub parent_thread_id: Option<ThreadId>,
    /// The identity shared by the root thread and all of its descendants.
    pub session_id: SessionId,
    /// This thread's secret.
    pub thread_token: ThreadToken,
}

/// An environment entry as text: name and value.
pub type EnvEntry = (Seq<char>, Seq<char>);

/// The text of each entry of an environment.
pub open spec fn env_view(env: Seq<(String, String)>) -> Seq<EnvEntry> {
    env.map_values(|p: (String, String)| (p.0@, p.1@))
}

/// An ASCII upper-case letter made lower-case; any other character as it is.
pub open spec fn ascii_lower(c: char) -> char {
    if 65 <= (c as int) <= 90 {
        ((c as int) + 32) as char
    } else {
        c
    }
}

/// `s` with its ASCII letters made lower-case.
pub open spec fn lowercase_ascii(s: Seq<char>) -> Seq<char> {
    s.map_values(|c: char| ascii_lower(c))
}

/// Whether `name` names the variable `reserved`: the same characters, or with
/// `ignore_ascii_case` the same characters once ASCII letters are made lower-case
/// (`str::eq_ignore_ascii_case`).
pub open spec fn names_match(name: Seq<char>, reserved: Seq<char>, ignore_ascii_case: bool) -> bool {
    if ignore_ascii_case {
        lowercase_ascii(name) == lowercase_ascii(reserved)
    } else {
        name == reserved
    }
}

/// Whether `name` is one of the reserved identity variables.
pub open spec fn is_reserved_name(name: Seq<char>, ignore_ascii_case: bool) -> bool {
    ||| names_match(name, CODEX_THREAD_ID_ENV_VAR@, ignore_ascii_case)
    ||| names_match(name, CODEX_PARENT_THREAD_ID_ENV_VAR@, ignore_ascii_case)
    ||| names_match(name, CODEX_SESSION_ID_ENV_VAR@, ignore_ascii_case)
    ||| names_match(name, CODEX_THREAD_TOKEN_ENV_VAR@, ignore_ascii_case)
}

/// The entries of `env` whose names are not reserved, in their order.
pub open spec fn unreserved_entries(env: Seq<EnvEntry>, ignore_ascii_case: bool) -> Seq<EnvEntry> {
    env.filter(|p: EnvEntry| !is_reserved_name(p.0, ignore_ascii_case))
}

/// The reserved variables of an identity: the thread id, the parent thread id for a child
/// thread, the session id and the secret token.
pub open spec fn reserved_entries(identity: HookSessionIdentity) -> Seq<EnvEntry> {
    seq![(CODEX_THREAD_ID_ENV_VAR@, uuid_text(identity.thread_id.uuid))] + (match identity.parent_thread_id {
        Some(parent) => seq![(CODEX_PARENT_THREAD_ID_ENV_VAR@, uuid_text(parent.uuid))],
        None => seq![],
    }) + seq![
        (CODEX_SESSION_ID_ENV_VAR@, uuid_text(identity.session_id.uuid)),
        (CODEX_THREAD_TOKEN_ENV_VAR@, identity.thread_token.secret@),
    ]
}

fn lower_char(c: char) -> (lower: char)
    ensures
        lower == ascii_lower(c),
{
    assert(c as int <= 0x10FFFF);
    let v: u32 = c as u32;
    assert(v as int == c as int);
    if 65 <= v && v <= 90 {
        ((v + 32) as u8) as char
    } else {
        c
    }
}

/// Whether `a` and `b` are equal once ASCII letters are made lower-case.
fn eq_ignore_ascii_case(a: &Vec<char>, b: &Vec<char>) -> (eq: bool)
    ensures
        eq == (lowercase_ascii(a@) == lowercase_ascii(b@)),
{
    if a.len() != b.len() {
        proof {
            assert(lowercase_ascii(a@).len() != lowercase_ascii(b@).len());
        }
        return false;
    }
    let mut i: usize = 0;
    while i < a.len()
        invariant
            a@.len() == b@.len(),
            i <= a@.len(),
            forall|j: int| 0 <= j < i ==> ascii_lower(a@[j]) == ascii_lower(b@[j]),
        decreases a@.len() - i,
    {
        if lower_char(a[i]) != lower_char(b[i]) {
            proof {
                assert(lowercase_ascii(a@)[i as int] != lowercase_ascii(b@)[i as int]);
            }
            return false;
        }
        i = i + 1;
    }
    proof {
        assert(lowercase_ascii(a@) =~= lowercase_ascii(b@));
    }
    true
}

fn matches_name(name: &Vec<char>, reserved: &str, ignore_ascii_case: bool) -> (m: bool)
    ensures
        m == names_match(name@, reserved@, ignore_ascii_case),
{
    let reserved = str_chars(reserved);
    if ignore_ascii_case {
        eq_ignore_ascii_case(name, &reserved)
    } else {
        chars_equal(name, &reserved)
    }
}

/// Whether `name` is one of the reserved thread identity environment variables. Names are
/// compared exactly, or ignoring ASCII case where the platform's environment does (Windows).
pub fn is_reserved_identity_env_var(name: &str, ignore_ascii_case: bool) -> (reserved: bool)
    ensures
        reserved == is_reserved_name(name@, ignore_ascii_case),
{
    let name = str_chars(name);
    matches_name(&name, CODEX_THREAD_ID_ENV_VAR, ignore_ascii_case) || matches_name(
        &name,
        CODEX_PARENT_THREAD_ID_ENV_VAR,
        ignore_ascii_case,
    ) || matches_name(&name, CODEX_SESSION_ID_ENV_VAR, ignore_ascii_case) || matches_name(
        &name,
        CODEX_THREAD_TOKEN_ENV_VAR,
        ignore_ascii_case,
    )
}

impl HookSessionIdentity {
    /// Identity of a root thread: no parent, and its session id is its own thread id.
    pub fn root(thread_id: ThreadId, thread_token: ThreadToken) -> (identity: Self)
        ensures
            identity.thread_id == thread_id,
            identity.parent_thread_id is None,
            identity.session_id.uuid == thread_id.uuid,
            identity.thread_token == thread_token,
    {
        Self {
            thread_id,
            parent_thread_id: None,
            session_id: SessionId::from_thread_id(thread_id),
            thread_token,
        }
    }

    /// Reserved environment variables exported to hook processes. The parent thread id is
    /// present only for a child thread; the token carries the secret.
    pub fn reserved_environment(&self) -> (reserved: Vec<(String, String)>)
        ensures
            env_view(reserved@) == reserved_entries(*self),
    {
        let mut reserved: Vec<(String, String)> = Vec::new();
        reserved.push((string_of(CODEX_THREAD_ID_ENV_VAR), self.thread_id.to_string()));
        if let Some(parent_thread_id) = self.parent_thread_id {
            reserved.push((string_of(CODEX_PARENT_THREAD_ID_ENV_VAR), parent_thread_id.to_string()));
        }
        reserved.push((string_of(CODEX_SESSION_ID_ENV_VAR), self.session_id.to_string()));
        reserved.push(
            (
                string_of(CODEX_THREAD_TOKEN_ENV_VAR),
                string_of(self.thread_token.expose_for_child_process_env()),
            ),
        );
        proof {
            assert(env_view(reserved@) =~= reserved_entries(*self));
        }
        reserved
    }

    /// Replaces any value of a reserved identity variable in `environment` with this
    /// identity's values: every reserved name is removed, even one the identity does not
    /// export (a root has no parent), then the identity's variables are appended. Names are
    /// matched ignoring ASCII case when `ignore_ascii_case` is set, as on Windows.
    pub fn apply_to_environment(&self, environment: &mut Vec<(String, String)>, ignore_ascii_case: bool)
        ensures
            env_view(final(environment)@) == unreserved_entries(
                env_view(old(environment)@),
                ignore_ascii_case,
            ) + reserved_entries(*self),
    {
        let ghost original = env_view(environment@);
        let mut kept: Vec<(String, String)> = Vec::new();
        let mut i: usize = 0;
        while i < environment.len()
            invariant
                i <= environment@.len(),
                original == env_view(environment@),
                env_view(kept@) == unreserved_entries(original.take(i as int), ignore_ascii_case),
            decreases environment@.len() - i,
        {
            let name = &environment[i].0;
            let value = &environment[i].1;
            let ghost before = env_view(kept@);
            proof {
                reveal(Seq::filter);
                assert(original.take(i + 1).drop_last() =~= original.take(i as int));
                assert(original.take(i + 1).last() == (name@, value@));
            }
            if !is_reserved_identity_env_var(name.as_str(), ignore_ascii_case) {
                kept.push((name.clone(), value.clone()));
                proof {
                    assert(env_view(kept@) =~= before.push((name@, value@)));
                }
            }
            i = i + 1;
        }
        proof {
            assert(original.take(environment@.len() as int) =~= original);
        }
        let ghost kept_view = env_view(kept@);
        let mut reserved = self.reserved_environment();
        let ghost reserved_view = env_view(reserved@);
        kept.append(&mut reserved);
        proof {
            assert(env_view(kept@) =~= kept_view + reserved_view);
        }
        *environment = kept;
    }
}


proof fn lemma_unreserved_of_unreserved(env: Seq<EnvEntry>, ignore_ascii_case: bool)
    requires
        forall|i: int| 0 <= i < env.len() ==> !is_reserved_name(#[trigger] env[i].0, ignore_ascii_case),
    ensures
        unreserved_entries(env, ignore_ascii_case) == env,
    decreases env.len(),
{
    reveal(Seq::filter);
    if env.len() > 0 {
        let rest = env.drop_last();
        assert forall|i: int| 0 <= i < rest.len() implies !is_reserved_name(#[trigger] rest[i].0, ignore_ascii_case) by {
            assert(rest[i] == env[i]);
        }
        lemma_unreserved_of_unreserved(rest, ignore_ascii_case);
        assert(!is_reserved_name(env[env.len() - 1].0, ignore_ascii_case));
        assert(rest.push(env.last()) =~= env);
    }
}

proof fn lemma_unreserved_of_reserved(env: Seq<EnvEntry>, ignore_ascii_case: bool)
    requires
        forall|i: int| 0 <= i < env.len() ==> is_reserved_name(#[trigger] env[i].0, ignore_ascii_case),
    ensures
        unreserved_entries(env, ignore_ascii_case) == Seq::<EnvEntry>::empty(),
    decreases env.len(),
{
    reveal(Seq::filter);
    if env.len() > 0 {
        let rest = env.drop_last();
        assert forall|i: int| 0 <= i < rest.len() implies is_reserved_name(#[trigger] rest[i].0, ignore_ascii_case) by {
            assert(rest[i] == env[i]);
        }
        lemma_unreserved_of_reserved(rest, ignore_ascii_case);
        assert(is_reserved_name(env[env.len() - 1].0, ignore_ascii_case));
    }
}

proof fn lemma_reserved_entries_reserved(identity: HookSessionIdentity, ignore_ascii_case: bool)
    ensures
        forall|i: int|
            0 <= i < reserved_entries(identity).len() ==> is_reserved_name(
                #[trigger] reserved_entries(identity)[i].0,
                ignore_ascii_case,
            ),
{
}

/// Applying an identity twice gives what applying it once gives.
pub proof fn lemma_apply_idempotent(identity: HookSessionIdentity, env: Seq<EnvEntry>, ignore_ascii_case: bool)
    ensures
        unreserved_entries(unreserved_entries(env, ignore_ascii_case) + reserved_entries(identity), ignore_ascii_case) + reserved_entries(
            identity,
        ) == unreserved_entries(env, ignore_ascii_case) + reserved_entries(identity),
{
    let kept = unreserved_entries(env, ignore_ascii_case);
    let pred = |p: EnvEntry| !is_reserved_name(p.0, ignore_ascii_case);
    Seq::filter_distributes_over_add(kept, reserved_entries(identity), pred);
    assert forall|i: int| 0 <= i < kept.len() implies !is_reserved_name(#[trigger] kept[i].0, ignore_ascii_case) by {
        env.lemma_filter_pred(pred, i);
    }
    lemma_unreserved_of_unreserved(kept, ignore_ascii_case);
    lemma_reserved_entries_reserved(identity, ignore_ascii_case);
    lemma_unreserved_of_reserved(reserved_entries(identity), ignore_ascii_case);
    assert(kept + Seq::<EnvEntry>::empty() =~= kept);
}

/// After applying an identity, every entry with a reserved name is one of the identity's
/// own entries, whatever the environment held before.
pub proof fn lemma_apply_no_spoofing(identity: HookSessionIdentity, env: Seq<EnvEntry>, ignore_ascii_case: bool)
    ensures
        forall|i: int|
            0 <= i < (unreserved_entries(env, ignore_ascii_case) + reserved_entries(identity)).len() && is_reserved_name(
                (#[trigger] (unreserved_entries(env, ignore_ascii_case) + reserved_entries(identity))[i]).0,
                ignore_ascii_case,
            ) ==> reserved_entries(identity).contains(
                (unreserved_entries(env, ignore_ascii_case) + reserved_entries(identity))[i],
            ),
{
    let kept = unreserved_entries(env, ignore_ascii_case);
    let all = kept + reserved_entries(identity);
    let pred = |p: EnvEntry| !is_reserved_name(p.0, ignore_ascii_case);
    assert forall|i: int| 0 <= i < all.len() && is_reserved_name((#[trigger] all[i]).0, ignore_ascii_case) implies reserved_entries(
        identity,
    ).contains(all[i]) by {
        if i < kept.len() {
            env.lemma_filter_pred(pred, i);
            assert(all[i] == kept[i]);
        } else {
            assert(all[i] == reserved_entries(identity)[i - kept.len()]);
        }
    }
}

} // verus!
