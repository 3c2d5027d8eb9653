//! Identifiers of threads and sessions, and the per-thread secret token.
use vstd::prelude::*;

use crate::text::push_char;

verus! {

/// Identifier of a thread: a UUID.
#[derive(Clone, Copy, Debug, PartialEq, Eq, Structural)]
pub struct ThreadId {
    pub uuid: u128,
}

/// Identifier of a session: the UUID of the session's root thread.
#[derive(Clone, Copy, Debug, PartialEq, Eq, Structural)]
pub struct SessionId {
    pub uuid: u128,
}

/// A thread's secret, proving to a local service that a process was launched by the thread.
#[derive(Clone, PartialEq, Eq)]
pub struct ThreadToken {
    pub secret: String,
}

/// The lowercase hexadecimal digit for `d`, which must be below sixteen.
pub open spec fn hex_char(d: nat) -> char
    recommends
        d < 16,
{
    if d < 10 {
        (48 + d) as char
    } else {
        (87 + d) as char
    }
}

/// The last `count` hexadecimal digits of `v`, most significant first.
pub open spec fn hex_digits(v: nat, count: nat) -> Seq<char>
    decreases count,
{
    if count == 0 {
        seq![]
    } else {
        hex_digits(v / 16, (count - 1) as nat).push(hex_char(v % 16))
    }
}

/// A UUID in its hyphenated lowercase form: 32 hexadecimal digits grouped 8-4-4-4-12.
pub open spec fn uuid_text(v: u128) -> Seq<char> {
    let h = hex_digits(v as nat, 32);
    h.subrange(0, 8) + seq!['-'] + h.subrange(8, 12) + seq!['-'] + h.subrange(12, 16) + seq!['-']
        + h.subrange(16, 20) + seq!['-'] + h.subrange(20, 32)
}

proof fn lemma_hex_digits_len(v: nat, count: nat)
    ensures
        hex_digits(v, count).len() == count,
    decreases count,
{
    if count > 0 {
        lemma_hex_digits_len(v / 16, (count - 1) as nat);
    }
}

fn push_hex_digits(out: &mut Vec<char>, v: u128, count: u32)
    ensures
        final(out)@ == old(out)@ + hex_digits(v as nat, count as nat),
    decreases count,
{
    if count > 0 {
        push_hex_digits(out, v / 16, count - 1);
        let d: u8 = (v % 16) as u8;
        let c: char = if d < 10 {
            (48u8 + d) as char
        } else {
            (87u8 + d) as char
        };
        out.push(c);
        proof {
            assert(hex_digits(v as nat, count as nat) == hex_digits((v / 16) as nat, (count - 1) as nat).push(
                hex_char((v % 16) as nat),
            ));
        }
    } else {
        proof {
            assert(out@ =~= out@ + Seq::<char>::empty());
        }
    }
}

fn push_range(s: &mut String, chars: &Vec<char>, from: usize, to: usize)
    requires
        from <= to <= chars@.len(),
    ensures
        final(s)@ == old(s)@ + chars@.subrange(from as int, to as int),
{
    let mut i = from;
    while i < to
        invariant
            from <= i <= to <= chars@.len(),
            s@ == old(s)@ + chars@.subrange(from as int, i as int),
        decreases to - i,
    {
        push_char(s, chars[i]);
        proof {
            assert(chars@.subrange(from as int, i + 1) =~= chars@.subrange(from as int, i as int).push(
                chars@[i as int],
            ));
        }
        i = i + 1;
    }
}

/// The hyphenated lowercase form of a UUID.
pub fn uuid_string(v: u128) -> (s: String)
    ensures
        s@ == uuid_text(v),
{
    let mut h: Vec<char> = Vec::new();
    push_hex_digits(&mut h, v, 32);
    proof {
        lemma_hex_digits_len(v as nat, 32);
        assert(h@ =~= hex_digits(v as nat, 32));
    }
    let mut s = String::new();
    push_range(&mut s, &h, 0, 8);
    push_char(&mut s, '-');
    push_range(&mut s, &h, 8, 12);
    push_char(&mut s, '-');
    push_range(&mut s, &h, 12, 16);
    push_char(&mut s, '-');
    push_range(&mut s, &h, 16, 20);
    push_char(&mut s, '-');
    push_range(&mut s, &h, 20, 32);
    proof {
        assert(s@ =~= uuid_text(v));
    }
    s
}

impl ThreadId {
    /// The thread id with the given UUID.
    pub fn from_u128(uuid: u128) -> (id: ThreadId)
        ensures
            id.uuid == uuid,
    {
        ThreadId { uuid }
    }

    /// The UUID in hyphenated lowercase form.
    pub fn to_string(&self) -> (s: String)
        ensures
            s@ == uuid_text(self.uuid),
    {
        uuid_string(self.uuid)
    }
}

impl SessionId {
    /// The session rooted at `thread_id`: the same UUID.
    pub fn from_thread_id(thread_id: ThreadId) -> (id: SessionId)
        ensures
            id.uuid == thread_id.uuid,
    {
        SessionId { uuid: thread_id.uuid }
    }

    /// The UUID in hyphenated lowercase form.
    pub fn to_string(&self) -> (s: String)
        ensures
            s@ == uuid_text(self.uuid),
    {
        uuid_string(self.uuid)
    }
}

impl ThreadToken {
    /// A token holding `secret`.
    pub fn new(secret: String) -> (token: ThreadToken)
        ensures
            token.secret == secret,
    {
        ThreadToken { secret }
    }

    /// The secret, for the environment of a child process.
    pub fn expose_for_child_process_env(&self) -> (secret: &str)
        ensures
            secret@ == self.secret@,
    {
        self.secret.as_str()
    }
}

} // verus!
