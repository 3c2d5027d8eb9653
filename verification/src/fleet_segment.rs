//! The canonical fleet-status segment: `fleet N[ ⚠A][ ✉U][ ⇄R]`.
use vstd::prelude::*;

use crate::text::{chars_equal, decimal, digit_char, push_decimal_chars, str_chars};

verus! {

/// Counts read from a fleet-status segment.
#[derive(Clone, Copy, Debug, PartialEq, Eq, Structural)]
pub struct FleetStatusCounts {
    pub live: u64,
    pub approvals: Option<u64>,
    pub unread: Option<u64>,
    pub active_runs: Option<u64>,
}

/// Marker in front of the count of pending approvals.
pub open spec fn approvals_marker() -> char {
    '\u{26a0}'
}

/// Marker in front of the count of unread messages.
pub open spec fn unread_marker() -> char {
    '\u{2709}'
}

/// Marker in front of the count of active runs.
pub open spec fn active_runs_marker() -> char {
    '\u{21c4}'
}

/// The leading word of every segment.
pub open spec fn fleet_word() -> Seq<char> {
    seq!['f', 'l', 'e', 'e', 't']
}

/// Rust's `char::is_ascii_whitespace`: space, tab, line feed, form feed, carriage return.
pub open spec fn is_ascii_ws(c: char) -> bool {
    c == ' ' || c == '\t' || c == '\n' || c == '\u{c}' || c == '\r'
}

/// An ASCII decimal digit.
pub open spec fn is_ascii_digit(c: char) -> bool {
    48 <= (c as int) <= 57
}

pub open spec fn all_digits(s: Seq<char>) -> bool {
    forall|i: int| 0 <= i < s.len() ==> #[trigger] is_ascii_digit(s[i])
}

/// The number that a string of decimal digits denotes.
pub open spec fn digits_value(s: Seq<char>) -> int
    decreases s.len(),
{
    if s.len() == 0 {
        0
    } else {
        digits_value(s.drop_last()) * 10 + ((s.last() as int) - 48)
    }
}

/// A count: a non-empty run of ASCII digits whose value fits in a `u64`.
pub open spec fn count_value(s: Seq<char>) -> Option<u64> {
    if s.len() > 0 && all_digits(s) && digits_value(s) <= u64::MAX {
        Some(digits_value(s) as u64)
    } else {
        None
    }
}

/// The words of `s` already closed, and the word still open, after reading all of `s`
/// with ASCII whitespace as separator.
pub open spec fn split_words(s: Seq<char>) -> (Seq<Seq<char>>, Seq<char>)
    decreases s.len(),
{
    if s.len() == 0 {
        (seq![], seq![])
    } else {
        let (ws, cur) = split_words(s.drop_last());
        if is_ascii_ws(s.last()) {
            if cur.len() > 0 {
                (ws.push(cur), seq![])
            } else {
                (ws, seq![])
            }
        } else {
            (ws, cur.push(s.last()))
        }
    }
}

/// The maximal runs of non-whitespace characters of `s`, in order (`str::split_ascii_whitespace`).
pub open spec fn words(s: Seq<char>) -> Seq<Seq<char>> {
    let (ws, cur) = split_words(s);
    if cur.len() > 0 {
        ws.push(cur)
    } else {
        ws
    }
}

/// Words joined by single spaces.
pub open spec fn join_words(ws: Seq<Seq<char>>) -> Seq<char>
    decreases ws.len(),
{
    if ws.len() == 0 {
        seq![]
    } else if ws.len() == 1 {
        ws[0]
    } else {
        join_words(ws.drop_last()) + seq![' '] + ws.last()
    }
}

/// The word for an optional count: its marker followed by the count, or nothing.
pub open spec fn optional_word(count: Option<u64>, marker: char) -> Seq<Seq<char>> {
    match count {
        Some(n) => seq![seq![marker] + decimal(n as nat)],
        None => seq![],
    }
}

/// The words of the canonical rendering of `c`.
pub open spec fn fleet_words(c: FleetStatusCounts) -> Seq<Seq<char>> {
    seq![fleet_word(), decimal(c.live as nat)] + optional_word(c.approvals, approvals_marker())
        + optional_word(c.unread, unread_marker()) + optional_word(
        c.active_runs,
        active_runs_marker(),
    )
}

/// The canonical segment for `c`.
pub open spec fn render_fleet(c: FleetStatusCounts) -> Seq<char> {
    join_words(fleet_words(c))
}

/// The counts whose canonical rendering `s` is, when there are such counts.
pub open spec fn fleet_counts_of(s: Seq<char>) -> Option<FleetStatusCounts> {
    if exists|c: FleetStatusCounts| counts_valid(c) && render_fleet(c) == s {
        Some(choose|c: FleetStatusCounts| counts_valid(c) && render_fleet(c) == s)
    } else {
        None
    }
}

/// Optional counts are never written as zero.
pub open spec fn counts_valid(c: FleetStatusCounts) -> bool {
    &&& c.approvals != Some(0u64)
    &&& c.unread != Some(0u64)
    &&& c.active_runs != Some(0u64)
}


/// The character sequences held by a vector of character vectors.
pub open spec fn word_views(parts: Seq<Vec<char>>) -> Seq<Seq<char>> {
    parts.map_values(|w: Vec<char>| w@)
}

/// No ASCII whitespace anywhere in `w`.
pub open spec fn no_ascii_ws(w: Seq<char>) -> bool {
    forall|i: int| 0 <= i < w.len() ==> !is_ascii_ws(#[trigger] w[i])
}

/// One optional count, looked for at word `idx`: absent when the word does not start with
/// `marker` (the index stays), refused when what follows the marker is no count or is zero.
pub open spec fn take_count(ws: Seq<Seq<char>>, idx: int, marker: char) -> Option<(Option<u64>, int)> {
    if idx >= ws.len() || ws[idx].len() == 0 || ws[idx][0] != marker {
        Some((None, idx))
    } else {
        match count_value(ws[idx].drop_first()) {
            None => None,
            Some(n) => if n == 0 {
                None
            } else {
                Some((Some(n), idx + 1))
            },
        }
    }
}

/// The counts read word by word: `fleet`, the live count, then the optional counts in
/// their fixed order, and nothing after them.
pub open spec fn counts_of_words(ws: Seq<Seq<char>>) -> Option<FleetStatusCounts> {
    if ws.len() < 2 || ws[0] != fleet_word() {
        None
    } else {
        match count_value(ws[1]) {
            None => None,
            Some(live) => match take_count(ws, 2, approvals_marker()) {
                None => None,
                Some((approvals, i1)) => match take_count(ws, i1, unread_marker()) {
                    None => None,
                    Some((unread, i2)) => match take_count(ws, i2, active_runs_marker()) {
                        None => None,
                        Some((active_runs, i3)) => if i3 == ws.len() {
                            Some(FleetStatusCounts { live, approvals, unread, active_runs })
                        } else {
                            None
                        },
                    },
                },
            },
        }
    }
}

/// The reading of a segment: the counts read from its words, kept only when the segment is
/// exactly their canonical rendering.
pub open spec fn parse_fleet(s: Seq<char>) -> Option<FleetStatusCounts> {
    match counts_of_words(words(s)) {
        Some(c) => if render_fleet(c) == s {
            Some(c)
        } else {
            None
        },
        None => None,
    }
}

pub(crate) proof fn lemma_decimal(n: nat)
    ensures
        decimal(n).len() > 0,
        all_digits(decimal(n)),
        no_ascii_ws(decimal(n)),
        digits_value(decimal(n)) == n,
    decreases n,
{
    if n >= 10 {
        lemma_decimal(n / 10);
        let d = decimal(n);
        assert(d.drop_last() =~= decimal(n / 10));
        assert(d.last() == digit_char(n % 10));
        assert((digit_char(n % 10) as int) == 48 + n % 10);
        assert(n == (n / 10) * 10 + n % 10);
        assert(digits_value(d) == digits_value(decimal(n / 10)) * 10 + (n % 10));
        assert forall|i: int| 0 <= i < d.len() implies #[trigger] is_ascii_digit(d[i]) by {
            if i < d.len() - 1 {
                assert(d[i] == decimal(n / 10)[i]);
            }
        }
        assert forall|i: int| 0 <= i < d.len() implies !is_ascii_ws(#[trigger] d[i]) by {
            if i < d.len() - 1 {
                assert(d[i] == decimal(n / 10)[i]);
            }
        }
    } else {
        assert(decimal(n).drop_last() =~= Seq::<char>::empty());
        assert((digit_char(n) as int) == 48 + n);
        assert(digits_value(Seq::<char>::empty()) == 0);
        assert(digits_value(decimal(n)) == digits_value(decimal(n).drop_last()) * 10 + (
        decimal(n).last() as int - 48));
    }
}

proof fn lemma_split_append_word(x: Seq<char>, w: Seq<char>)
    requires
        no_ascii_ws(w),
    ensures
        split_words(x + w) == (split_words(x).0, split_words(x).1 + w),
    decreases w.len(),
{
    if w.len() == 0 {
        assert(x + w =~= x);
        assert(split_words(x).1 + w =~= split_words(x).1);
    } else {
        let w1 = w.drop_last();
        assert(no_ascii_ws(w1)) by {
            assert forall|i: int| 0 <= i < w1.len() implies !is_ascii_ws(#[trigger] w1[i]) by {
                assert(w1[i] == w[i]);
            }
        }
        lemma_split_append_word(x, w1);
        assert((x + w).drop_last() =~= x + w1);
        assert((x + w).last() == w.last());
        assert(!is_ascii_ws(w[w.len() - 1]));
        assert((split_words(x).1 + w1).push(w.last()) =~= split_words(x).1 + w);
    }
}

/// All words non-empty and free of whitespace.
pub open spec fn plain_words(ws: Seq<Seq<char>>) -> bool {
    forall|i: int| 0 <= i < ws.len() ==> #[trigger] ws[i].len() > 0 && no_ascii_ws(ws[i])
}

proof fn lemma_split_join(ws: Seq<Seq<char>>)
    requires
        ws.len() >= 1,
        plain_words(ws),
    ensures
        split_words(join_words(ws)) == (ws.drop_last(), ws.last()),
    decreases ws.len(),
{
    assert(ws[ws.len() - 1].len() > 0 && no_ascii_ws(ws[ws.len() - 1]));
    if ws.len() == 1 {
        lemma_split_append_word(Seq::<char>::empty(), ws[0]);
        assert(Seq::<char>::empty() + ws[0] =~= ws[0]);
        assert(split_words(Seq::<char>::empty()) == (Seq::<Seq<char>>::empty(), Seq::<char>::empty()));
        assert(Seq::<char>::empty() + ws[0] =~= ws[0]);
        assert(ws.drop_last() =~= Seq::<Seq<char>>::empty());
    } else {
        let ws1 = ws.drop_last();
        assert(plain_words(ws1)) by {
            assert forall|i: int| 0 <= i < ws1.len() implies #[trigger] ws1[i].len() > 0
                && no_ascii_ws(ws1[i]) by {
                assert(ws1[i] == ws[i]);
            }
        }
        lemma_split_join(ws1);
        assert(ws1[ws1.len() - 1].len() > 0);
        let j1 = join_words(ws1);
        let sp = j1 + seq![' '];
        assert(sp.drop_last() =~= j1);
        assert(sp.last() == ' ');
        assert(split_words(sp) == (ws1.drop_last().push(ws1.last()), Seq::<char>::empty()));
        assert(ws1.drop_last().push(ws1.last()) =~= ws1);
        lemma_split_append_word(sp, ws.last());
        assert(Seq::<char>::empty() + ws.last() =~= ws.last());
        assert(join_words(ws) == sp + ws.last());
    }
}

proof fn lemma_words_join(ws: Seq<Seq<char>>)
    requires
        ws.len() >= 1,
        plain_words(ws),
    ensures
        words(join_words(ws)) == ws,
{
    lemma_split_join(ws);
    assert(ws[ws.len() - 1].len() > 0);
    assert(ws.drop_last().push(ws.last()) =~= ws);
}

proof fn lemma_fleet_words_plain(c: FleetStatusCounts)
    ensures
        plain_words(fleet_words(c)),
        fleet_words(c).len() >= 2,
{
    let ws = fleet_words(c);
    lemma_decimal(c.live as nat);
    assert(no_ascii_ws(fleet_word()));
    assert forall|i: int| 0 <= i < ws.len() implies #[trigger] ws[i].len() > 0 && no_ascii_ws(
        ws[i],
    ) by {
        if i >= 2 {
            let w = ws[i];
            assert(exists|m: char, n: u64|
                !is_ascii_ws(m) && w == seq![m] + decimal(n as nat)) by {
                let a = optional_word(c.approvals, approvals_marker());
                let u = optional_word(c.unread, unread_marker());
                let r = optional_word(c.active_runs, active_runs_marker());
                assert(ws == seq![fleet_word(), decimal(c.live as nat)] + a + u + r);
                if i < 2 + a.len() {
                    assert(w == a[i - 2]);
                } else if i < 2 + a.len() + u.len() {
                    assert(w == u[i - 2 - a.len()]);
                } else {
                    assert(w == r[i - 2 - a.len() - u.len()]);
                }
            }
            let (m, n) = choose|m: char, n: u64| !is_ascii_ws(m) && w == seq![m] + decimal(n as nat);
            lemma_decimal(n as nat);
            assert forall|k: int| 0 <= k < w.len() implies !is_ascii_ws(#[trigger] w[k]) by {
                if k > 0 {
                    assert(w[k] == decimal(n as nat)[k - 1]);
                }
            }
        }
    }
}

proof fn lemma_count_of_decimal(n: u64)
    ensures
        count_value(decimal(n as nat)) == Some(n),
{
    lemma_decimal(n as nat);
}

/// Parsing the canonical rendering of valid counts gives them back.
pub proof fn lemma_parse_render(c: FleetStatusCounts)
    requires
        counts_valid(c),
    ensures
        parse_fleet(render_fleet(c)) == Some(c),
{
    let ws = fleet_words(c);
    lemma_fleet_words_plain(c);
    lemma_words_join(ws);
    lemma_count_of_decimal(c.live);
    let a = optional_word(c.approvals, approvals_marker());
    let u = optional_word(c.unread, unread_marker());
    let r = optional_word(c.active_runs, active_runs_marker());
    assert(ws[0] == fleet_word());
    assert(ws[1] == decimal(c.live as nat));
    let i1: int = 2 + a.len() as int;
    let i2: int = i1 + u.len();
    let i3: int = i2 + r.len();
    assert(ws.len() == i3);
    // approvals
    match c.approvals {
        Some(n) => {
            lemma_count_of_decimal(n);
            assert(ws[2] == seq![approvals_marker()] + decimal(n as nat));
            assert(ws[2].drop_first() =~= decimal(n as nat));
        },
        None => {
            if 2 < ws.len() {
                assert(ws[2][0] != approvals_marker()) by {
                    if u.len() > 0 {
                        assert(ws[2] == u[0]);
                    } else {
                        assert(ws[2] == r[0]);
                    }
                }
            }
        },
    }
    assert(take_count(ws, 2, approvals_marker()) == Some((c.approvals, i1)));
    match c.unread {
        Some(n) => {
            lemma_count_of_decimal(n);
            assert(ws[i1] == seq![unread_marker()] + decimal(n as nat));
            assert(ws[i1].drop_first() =~= decimal(n as nat));
        },
        None => {
            if i1 < ws.len() {
                assert(ws[i1] == r[0]);
            }
        },
    }
    assert(take_count(ws, i1, unread_marker()) == Some((c.unread, i2)));
    match c.active_runs {
        Some(n) => {
            lemma_count_of_decimal(n);
            assert(ws[i2] == seq![active_runs_marker()] + decimal(n as nat));
            assert(ws[i2].drop_first() =~= decimal(n as nat));
        },
        None => {},
    }
    assert(take_count(ws, i2, active_runs_marker()) == Some((c.active_runs, i3)));
    assert(counts_of_words(ws) == Some(c));
}

/// What the reading accepts is valid and is exactly the canonical rendering of what it reads.
pub proof fn lemma_parse_sound(s: Seq<char>)
    ensures
        parse_fleet(s) matches Some(c) ==> counts_valid(c) && render_fleet(c) == s,
{
}


/// Splits `s` at runs of ASCII whitespace, dropping empty pieces (`str::split_ascii_whitespace`).
fn split_ascii_whitespace(s: &Vec<char>) -> (parts: Vec<Vec<char>>)
    ensures
        word_views(parts@) == words(s@),
{
    let mut parts: Vec<Vec<char>> = Vec::new();
    let mut cur: Vec<char> = Vec::new();
    let mut i: usize = 0;
    while i < s.len()
        invariant
            i <= s@.len(),
            (word_views(parts@), cur@) == split_words(s@.take(i as int)),
        decreases s@.len() - i,
    {
        let c = s[i];
        proof {
            assert(s@.take(i + 1).drop_last() =~= s@.take(i as int));
            assert(s@.take(i + 1).last() == c);
        }
        let ghost old_parts = word_views(parts@);
        if c == ' ' || c == '\t' || c == '\n' || c == '\u{c}' || c == '\r' {
            if cur.len() > 0 {
                let done = cur;
                parts.push(done);
                cur = Vec::new();
                proof {
                    assert(word_views(parts@) =~= old_parts.push(done@));
                }
            }
        } else {
            cur.push(c);
        }
        i = i + 1;
    }
    proof {
        assert(s@.take(s@.len() as int) =~= s@);
    }
    if cur.len() > 0 {
        let ghost old_parts = word_views(parts@);
        parts.push(cur);
        proof {
            assert(word_views(parts@) =~= old_parts.push(cur@));
        }
    }
    parts
}

/// The value of an ASCII digit, or `None` for any other character.
fn digit_value(c: char) -> (d: Option<u64>)
    ensures
        is_ascii_digit(c) ==> d == Some((c as int - 48) as u64),
        !is_ascii_digit(c) ==> d is None,
{
    assert(c as int <= 0x10FFFF);
    let code: u32 = c as u32;
    assert(code as int == c as int);
    if code < 48 || code > 57 {
        None
    } else {
        Some((code - 48) as u64)
    }
}

/// Reads a count: a non-empty run of ASCII digits whose value fits in a `u64`.
fn parse_count(value: &Vec<char>) -> (count: Option<u64>)
    ensures
        count == count_value(value@),
{
    let mut acc: u64 = 0;
    let mut overflow = false;
    let mut i: usize = 0;
    while i < value.len()
        invariant
            i <= value@.len(),
            all_digits(value@.take(i as int)),
            !overflow ==> acc == digits_value(value@.take(i as int)),
            overflow ==> digits_value(value@.take(i as int)) > u64::MAX,
        decreases value@.len() - i,
    {
        let c = value[i];
        let ghost prefix = value@.take(i + 1);
        proof {
            assert(prefix.drop_last() =~= value@.take(i as int));
            assert(prefix.last() == c);
        }
        let d: u64 = match digit_value(c) {
            Some(d) => d,
            None => {
                return None;
            },
        };
        proof {
            assert(digits_value(prefix) == digits_value(value@.take(i as int)) * 10 + d);
        }
        if !overflow {
            match acc.checked_mul(10) {
                Some(m) => match m.checked_add(d) {
                    Some(x) => {
                        acc = x;
                    },
                    None => {
                        overflow = true;
                    },
                },
                None => {
                    overflow = true;
                },
            }
        }
        proof {
            assert forall|j: int| 0 <= j < prefix.len() implies #[trigger] is_ascii_digit(prefix[j]) by {
                if j < i {
                    assert(prefix[j] == value@.take(i as int)[j]);
                }
            }
        }
        i = i + 1;
    }
    proof {
        assert(value@.take(value@.len() as int) =~= value@);
    }
    if value.len() == 0 || overflow {
        None
    } else {
        Some(acc)
    }
}

/// Reads the optional count at `*next` if that word starts with `prefix`, moving past it;
/// leaves `*next` alone when the word is absent or starts otherwise. `None` refuses the
/// segment: the marker is followed by no count, or by zero.
fn take_optional_count(parts: &Vec<Vec<char>>, next: &mut usize, prefix: char) -> (taken: Option<
    Option<u64>,
>)
    requires
        *old(next) <= parts@.len(),
    ensures
        take_count(word_views(parts@), *old(next) as int, prefix) matches Some((count, idx)) ==> (
        taken == Some(count) && *final(next) == idx),
        take_count(word_views(parts@), *old(next) as int, prefix) is None ==> taken is None,
        *final(next) <= parts@.len(),
{
    let ghost ws = word_views(parts@);
    if *next >= parts.len() {
        return Some(None);
    }
    let word = &parts[*next];
    proof {
        assert(word@ == ws[*next as int]);
    }
    if word.len() == 0 || word[0] != prefix {
        return Some(None);
    }
    let mut rest: Vec<char> = Vec::new();
    let mut k: usize = 1;
    while k < word.len()
        invariant
            1 <= k <= word@.len(),
            rest@ == word@.subrange(1, k as int),
        decreases word@.len() - k,
    {
        rest.push(word[k]);
        proof {
            assert(word@.subrange(1, k + 1) =~= word@.subrange(1, k as int).push(word@[k as int]));
        }
        k = k + 1;
    }
    proof {
        assert(rest@ =~= word@.drop_first());
    }
    let count = match parse_count(&rest) {
        Some(n) => n,
        None => {
            return None;
        },
    };
    if count == 0 {
        return None;
    }
    *next = *next + 1;
    Some(Some(count))
}

/// The canonical segment for `counts`.
fn canonical_chars(counts: &FleetStatusCounts) -> (v: Vec<char>)
    ensures
        v@ == render_fleet(*counts),
{
    let mut v: Vec<char> = vec!['f', 'l', 'e', 'e', 't', ' '];
    push_decimal_chars(&mut v, counts.live);
    let ghost mut ws: Seq<Seq<char>> = seq![fleet_word(), decimal(counts.live as nat)];
    proof {
        assert(seq![fleet_word(), decimal(counts.live as nat)].drop_last() =~= seq![fleet_word()]);
        assert(join_words(seq![fleet_word()]) == fleet_word());
        assert(join_words(ws) == fleet_word() + seq![' '] + decimal(counts.live as nat));
        assert(v@ =~= join_words(ws));
    }
    if let Some(n) = counts.approvals {
        let ghost before = v@;
        v.push(' ');
        v.push('\u{26a0}');
        push_decimal_chars(&mut v, n);
        proof {
            let w = seq![approvals_marker()] + decimal(n as nat);
            assert(ws.push(w).drop_last() =~= ws);
            assert(v@ =~= before + seq![' '] + w);
            assert(join_words(ws.push(w)) == join_words(ws) + seq![' '] + w);
            ws = ws.push(w);
            assert(v@ == join_words(ws));
        }
    }
    if let Some(n) = counts.unread {
        let ghost before = v@;
        v.push(' ');
        v.push('\u{2709}');
        push_decimal_chars(&mut v, n);
        proof {
            let w = seq![unread_marker()] + decimal(n as nat);
            assert(ws.push(w).drop_last() =~= ws);
            assert(v@ =~= before + seq![' '] + w);
            assert(join_words(ws.push(w)) == join_words(ws) + seq![' '] + w);
            ws = ws.push(w);
            assert(v@ == join_words(ws));
        }
    }
    if let Some(n) = counts.active_runs {
        let ghost before = v@;
        v.push(' ');
        v.push('\u{21c4}');
        push_decimal_chars(&mut v, n);
        proof {
            let w = seq![active_runs_marker()] + decimal(n as nat);
            assert(ws.push(w).drop_last() =~= ws);
            assert(v@ =~= before + seq![' '] + w);
            assert(join_words(ws.push(w)) == join_words(ws) + seq![' '] + w);
            ws = ws.push(w);
            assert(v@ == join_words(ws));
        }
    }
    proof {
        assert(v@ == join_words(ws));
        assert(ws =~= fleet_words(*counts));
    }
    v
}

/// Reads a fleet-status segment. It is accepted exactly when it is the canonical rendering of
/// some counts whose optional counts are not zero: `fleet` and the live count, then `⚠`
/// approvals, `✉` unread and `⇄` active runs in that order, single spaces between them.
pub fn parse_fleet_status(segment: &str) -> (parsed: Option<FleetStatusCounts>)
    ensures
        parsed matches Some(c) ==> counts_valid(c) && segment@ == render_fleet(c),
        forall|c: FleetStatusCounts|
            counts_valid(c) && segment@ == #[trigger] render_fleet(c) ==> parsed == Some(c),
        parsed == fleet_counts_of(segment@),
{
    let chars = str_chars(segment);
    let parts = split_ascii_whitespace(&chars);
    let r = parse_words(&parts);
    let result = match r {
        None => None,
        Some(counts) => {
            let canonical = canonical_chars(&counts);
            if chars_equal(&canonical, &chars) {
                Some(counts)
            } else {
                None
            }
        },
    };
    proof {
        assert(result == parse_fleet(segment@));
        lemma_parse_sound(segment@);
        assert forall|c: FleetStatusCounts|
            counts_valid(c) && segment@ == #[trigger] render_fleet(c) implies result == Some(c) by {
            lemma_parse_render(c);
        }
        if exists|c: FleetStatusCounts| counts_valid(c) && render_fleet(c) == segment@ {
            let c = choose|c: FleetStatusCounts| counts_valid(c) && render_fleet(c) == segment@;
            lemma_parse_render(c);
        }
    }
    result
}

/// The counts read word by word.
fn parse_words(parts: &Vec<Vec<char>>) -> (counts: Option<FleetStatusCounts>)
    ensures
        counts == counts_of_words(word_views(parts@)),
{
    let ghost ws = word_views(parts@);
    if parts.len() < 2 {
        return None;
    }
    let fleet: Vec<char> = vec!['f', 'l', 'e', 'e', 't'];
    proof {
        assert(parts[0]@ == ws[0]);
        assert(parts[1]@ == ws[1]);
        assert(fleet@ =~= fleet_word());
    }
    if !chars_equal(&parts[0], &fleet) {
        return None;
    }
    let live = match parse_count(&parts[1]) {
        Some(n) => n,
        None => {
            return None;
        },
    };
    let mut next: usize = 2;
    let approvals = match take_optional_count(parts, &mut next, '\u{26a0}') {
        Some(a) => a,
        None => {
            return None;
        },
    };
    let unread = match take_optional_count(parts, &mut next, '\u{2709}') {
        Some(u) => u,
        None => {
            return None;
        },
    };
    let active_runs = match take_optional_count(parts, &mut next, '\u{21c4}') {
        Some(r) => r,
        None => {
            return None;
        },
    };
    if next != parts.len() {
        return None;
    }
    Some(FleetStatusCounts { live, approvals, unread, active_runs })
}

/// Whether `segment` is a canonical fleet-status segment.
pub fn is_canonical_fleet_status(segment: &str) -> (canonical: bool)
    ensures
        canonical == exists|c: FleetStatusCounts| counts_valid(c) && segment@ == render_fleet(c),
{
    let parsed = parse_fleet_status(segment);
    proof {
        if exists|c: FleetStatusCounts| counts_valid(c) && segment@ == render_fleet(c) {
            let c = choose|c: FleetStatusCounts| counts_valid(c) && segment@ == render_fleet(c);
            assert(parsed == Some(c));
        }
    }
    parsed.is_some()
}

} // verus!
