//! The notification daemon's bookkeeping: how incoming notifications are
//! cleaned up, queued, replaced, timed out and dismissed.

use vstd::prelude::*;
use vstd::utf8::*;

use crate::config::timeouts::{TimeoutConfig, NEVER};
use crate::config::profiles::RuleAction;
use crate::lexer::{byte_offset, char_len_utf8, lemma_byte_offset_step, lemma_encode_utf8_concat, utf8_width};
use crate::config::style::NotificationConfig;
use crate::config::{presentation_for_model, PigeonConfig};
use crate::notification::{HintsModel, Notification, NotificationHints, MAX_STRING_HINTS};
use crate::string_map::{lemma_string_map, StringMap};
use crate::text::{chars_of, push_char, str_eq};

verus! {

broadcast use vstd::string::group_string_axioms;

/// The most notifications kept on screen or waiting at once.
pub const MAX_LIVE_NOTIFICATIONS: usize = 32;

/// Byte limit for names, icons, summaries, action labels and string hints.
pub const MAX_SHORT_TEXT_BYTES: usize = 4096;

/// Byte limit for notification bodies.
pub const MAX_BODY_BYTES: usize = 65536;

/// The most actions kept per notification.
pub const MAX_ACTION_PAIRS: usize = 32;

/// How long a notification asked to stay up.
#[derive(Clone, Copy, Debug, PartialEq, Eq, Structural)]
pub enum TimeoutPolicy {
    /// It stays until dismissed.
    Never,
    /// It stays this many milliseconds.
    Fixed(u64),
    /// It stays as long as the configuration says for its urgency.
    Configured,
}

/// The policy for the `expire_timeout` a client sent: zero means never,
/// minus one means the configured default, a positive value is that many
/// milliseconds, and any other negative value means never.
pub open spec fn policy_for(expire: i32) -> TimeoutPolicy {
    if expire == 0 {
        TimeoutPolicy::Never
    } else if expire == -1 {
        TimeoutPolicy::Configured
    } else if expire > 0 {
        TimeoutPolicy::Fixed(expire as u64)
    } else {
        TimeoutPolicy::Never
    }
}

pub fn timeout_policy(expire: i32) -> (p: TimeoutPolicy)
    ensures
        p == policy_for(expire),
{
    if expire == 0 {
        TimeoutPolicy::Never
    } else if expire == -1 {
        TimeoutPolicy::Configured
    } else if expire > 0 {
        TimeoutPolicy::Fixed(expire as u64)
    } else {
        TimeoutPolicy::Never
    }
}

/// The timeout, in milliseconds, a notification gets under `policy`:
/// `None` when it never expires. A configured timeout goes by urgency (low
/// for 0, critical for 2, normal otherwise), and the "never" value means no
/// timeout.
pub open spec fn resolved_timeout(
    policy: TimeoutPolicy,
    configured: TimeoutConfig,
    urgency: Option<u8>,
) -> Option<u64> {
    match policy {
        TimeoutPolicy::Never => None,
        TimeoutPolicy::Fixed(ms) => Some(ms),
        TimeoutPolicy::Configured => {
            let ms = if urgency == Some(0u8) {
                configured.low
            } else if urgency == Some(2u8) {
                configured.critical
            } else {
                configured.normal
            };
            if ms == NEVER {
                None
            } else {
                Some(ms)
            }
        },
    }
}

/// How long a notification stays: never under the never policy, the given
/// time under a fixed one; under the configured one, the low timeout for
/// urgency 0, the critical one for urgency 2, and the normal one for urgency
/// 1, for any other byte and without an urgency hint, a "never" setting
/// meaning no timeout.
pub proof fn lemma_timeout_by_urgency(configured: TimeoutConfig, urgency: Option<u8>, ms: u64)
    ensures
        resolved_timeout(TimeoutPolicy::Never, configured, urgency) is None,
        resolved_timeout(TimeoutPolicy::Fixed(ms), configured, urgency) == Some(ms),
        resolved_timeout(TimeoutPolicy::Configured, configured, Some(0u8)) == (if configured.low
            == NEVER {
            None::<u64>
        } else {
            Some(configured.low)
        }),
        resolved_timeout(TimeoutPolicy::Configured, configured, Some(2u8)) == (if configured.critical
            == NEVER {
            None::<u64>
        } else {
            Some(configured.critical)
        }),
        resolved_timeout(TimeoutPolicy::Configured, configured, None) == (if configured.normal
            == NEVER {
            None::<u64>
        } else {
            Some(configured.normal)
        }),
        resolved_timeout(TimeoutPolicy::Configured, configured, Some(1u8)) == resolved_timeout(
            TimeoutPolicy::Configured,
            configured,
            None,
        ),
        urgency != Some(0u8) && urgency != Some(2u8) ==> resolved_timeout(
            TimeoutPolicy::Configured,
            configured,
            urgency,
        ) == resolved_timeout(TimeoutPolicy::Configured, configured, None),
{
}

pub fn resolve(policy: TimeoutPolicy, configured: &TimeoutConfig, notification: &Notification) -> (r:
    Option<u64>)
    ensures
        r == resolved_timeout(policy, *configured, notification.hints.urgency),
{
    match policy {
        TimeoutPolicy::Never => None,
        TimeoutPolicy::Fixed(ms) => Some(ms),
        TimeoutPolicy::Configured => {
            let ms = match notification.urgency() {
                Some(0) => configured.low,
                Some(2) => configured.critical,
                _ => configured.normal,
            };
            if ms != NEVER {
                Some(ms)
            } else {
                None
            }
        },
    }
}

/// The number of bytes `s` takes in UTF-8.
pub open spec fn byte_len(s: Seq<char>) -> nat {
    encode_utf8(s).len()
}

/// Counting from character `i`, how many leading characters of `s` fit in
/// `budget` bytes of UTF-8.
pub open spec fn fitting_chars(s: Seq<char>, budget: int, i: int) -> int
    decreases s.len() - i,
{
    if 0 <= i < s.len() && byte_offset(s, i + 1) <= budget {
        fitting_chars(s, budget, i + 1)
    } else {
        i
    }
}

/// `s` when it fits in `limit` bytes; otherwise its longest prefix that
/// leaves room for an ellipsis, followed by the ellipsis.
pub open spec fn truncated(s: Seq<char>, limit: nat) -> Seq<char> {
    if byte_len(s) <= limit {
        s
    } else {
        let budget = if limit >= utf8_width('…') {
            limit - utf8_width('…')
        } else {
            0
        };
        s.take(fitting_chars(s, budget, 0)).push('…')
    }
}

proof fn lemma_fitting_chars(s: Seq<char>, budget: int, i: int)
    requires
        0 <= i <= s.len(),
        byte_offset(s, i) <= budget,
    ensures
        i <= fitting_chars(s, budget, i) <= s.len(),
        byte_offset(s, fitting_chars(s, budget, i)) <= budget,
    decreases s.len() - i,
{
    if i < s.len() && byte_offset(s, i + 1) <= budget {
        lemma_fitting_chars(s, budget, i + 1);
    }
}

/// Cuts `value` down to at most `limit` bytes, ending it with an ellipsis
/// when anything was cut.
pub fn truncate(value: String, limit: usize) -> (r: String)
    ensures
        r@ == truncated(value@, limit as nat),
{
    proof {
        assert(value@.take(value@.len() as int) =~= value@);
    }
    if value.as_str().as_bytes().len() <= limit {
        return value;
    }
    let ellipsis = '…';
    let budget = limit.saturating_sub(char_len_utf8(ellipsis));
    let chars = chars_of(value.as_str());
    let ghost s = value@;
    let mut result = String::new();
    let mut pos: usize = 0;
    let mut i: usize = 0;
    proof {
        assert(s.take(0) =~= Seq::<char>::empty());
    }
    while i < chars.len()
        invariant
            chars@ == s,
            i <= s.len(),
            pos == byte_offset(s, i as int),
            pos <= budget,
            result@ == s.take(i as int),
            fitting_chars(s, budget as int, 0) == fitting_chars(s, budget as int, i as int),
        ensures
            fitting_chars(s, budget as int, 0) == i,
            result@ == s.take(i as int),
        decreases s.len() - i,
    {
        let c = chars[i];
        let w = char_len_utf8(c);
        proof {
            lemma_byte_offset_step(s, i as int);
        }
        if w > budget - pos {
            break;
        }
        push_char(&mut result, c);
        proof {
            assert(s.take(i + 1) =~= s.take(i as int).push(c));
        }
        pos = pos + w;
        i = i + 1;
    }
    push_char(&mut result, ellipsis);
    result
}

/// The bytes of a truncated string stay within the limit, once the limit
/// leaves room for the ellipsis, and a string within the limit is kept.
pub proof fn lemma_truncated_fits(s: Seq<char>, limit: nat)
    requires
        limit >= 3,
    ensures
        byte_len(truncated(s, limit)) <= limit,
        byte_len(s) <= limit ==> truncated(s, limit) == s,
{
    if byte_len(s) > limit {
        let w = utf8_width('…');
        assert(w == 3) by {
            assert(('…' as u32) == 0x2026u32);
        }
        let budget = limit - w;
        assert(s.take(0) =~= Seq::<char>::empty());
        assert(encode_utf8(Seq::<char>::empty()) =~= Seq::<u8>::empty());
        lemma_fitting_chars(s, budget, 0);
        let k = fitting_chars(s, budget, 0);
        lemma_encode_utf8_concat(s.take(k), seq!['…']);
        assert(s.take(k).push('…') =~= s.take(k) + seq!['…']);
        assert(seq!['…'].drop_first() =~= Seq::<char>::empty());
        assert(encode_utf8(seq!['…']) =~= encode_scalar('…' as u32));
    }
}

/// Whether two notifications come from the same application: by desktop
/// entry when both name one, otherwise by application name.
pub open spec fn same_source_model(left: Notification, right: Notification) -> bool {
    match (left.hints.desktop_entry, right.hints.desktop_entry) {
        (Some(l), Some(r)) => l@ == r@,
        _ => left.app_name@ == right.app_name@,
    }
}

pub fn same_source(left: &Notification, right: &Notification) -> (b: bool)
    ensures
        b == same_source_model(*left, *right),
{
    match (left.desktop_entry(), right.desktop_entry()) {
        (Some(l), Some(r)) => str_eq(l, r),
        _ => str_eq(left.app_name.as_str(), right.app_name.as_str()),
    }
}

/// A queued notification with what the daemon decided for it.
pub struct QueueEntry {
    pub notification: Notification,
    /// Bumped each time the notification is replaced, so that timers and
    /// events meant for an earlier version can be told apart.
    pub generation: u64,
    pub style: NotificationConfig,
    pub timeout_policy: TimeoutPolicy,
    /// Milliseconds until it expires, `None` for never.
    pub timeout: Option<u64>,
    /// Whether its expiry timer has been started.
    pub timer_started: bool,
}

/// The notifications on screen or waiting, oldest first, and the next id to
/// hand out.
pub struct NotificationQueue {
    next_id: u32,
    entries: Vec<QueueEntry>,
}

/// The id that follows `id`: ids count up from 1 and wrap around past the
/// largest back to 1, never giving 0.
pub open spec fn succ_id(id: u32) -> u32 {
    if id == u32::MAX {
        1
    } else {
        (id + 1) as u32
    }
}

/// The id `k` steps after `id`.
pub open spec fn advance_id(id: u32, k: nat) -> u32
    decreases k,
{
    if k == 0 {
        id
    } else {
        succ_id(advance_id(id, (k - 1) as nat))
    }
}

/// The ids of the queued notifications, in queue order.
pub open spec fn entry_ids(entries: Seq<QueueEntry>) -> Seq<u32> {
    entries.map_values(|e: QueueEntry| e.notification.id)
}

/// `id` is the first id, counting from `start`, that is not among `used`.
pub open spec fn first_free_id(used: Seq<u32>, start: u32, id: u32) -> bool {
    exists|k: nat|
        #![trigger advance_id(start, k)]
        advance_id(start, k) == id && !used.contains(id) && forall|j: nat|
            j < k ==> used.contains(#[trigger] advance_id(start, j))
}

/// From index `i` on, the index of the first entry that satisfies `p`.
pub open spec fn first_from(entries: Seq<QueueEntry>, p: spec_fn(QueueEntry) -> bool, i: int) -> Option<
    int,
>
    decreases entries.len() - i,
{
    if i < 0 || i >= entries.len() {
        None
    } else if p(entries[i]) {
        Some(i)
    } else {
        first_from(entries, p, i + 1)
    }
}

/// The index of the first entry that satisfies `p`.
pub open spec fn first_entry(entries: Seq<QueueEntry>, p: spec_fn(QueueEntry) -> bool) -> Option<int> {
    first_from(entries, p, 0)
}

/// The entry for notification `id`, of the given generation when one is given.
pub open spec fn is_instance(id: u32, generation: Option<u64>) -> spec_fn(QueueEntry) -> bool {
    |e: QueueEntry|
        e.notification.id == id && match generation {
            Some(g) => e.generation == g,
            None => true,
        }
}

/// Whether a queued entry is the one a new notification replaces: the one
/// with the id it names, or, when it names none, one with the same stack tag
/// from the same application.
pub open spec fn replaces(replaces_id: u32, candidate: Notification) -> spec_fn(QueueEntry) -> bool {
    |e: QueueEntry|
        if replaces_id != 0 {
            e.notification.id == replaces_id
        } else {
            &&& candidate.hints.stack_tag is Some
            &&& e.notification.hints.stack_tag is Some
            &&& e.notification.hints.stack_tag->Some_0@ == candidate.hints.stack_tag->Some_0@
            &&& same_source_model(e.notification, candidate)
        }
}

/// The generation after `g`, wrapping around.
pub open spec fn next_generation(g: u64) -> u64 {
    if g == u64::MAX {
        0
    } else {
        (g + 1) as u64
    }
}

/// `n` under the id `id`.
pub open spec fn with_id(n: Notification, id: u32) -> Notification {
    Notification { id, ..n }
}

/// The entry that a stored notification becomes.
pub open spec fn new_entry(
    n: Notification,
    id: u32,
    generation: u64,
    style: NotificationConfig,
    timeout_policy: TimeoutPolicy,
    timeout: Option<u64>,
) -> QueueEntry {
    QueueEntry {
        notification: with_id(n, id),
        generation,
        style,
        timeout_policy,
        timeout,
        timer_started: false,
    }
}

proof fn lemma_first_from(entries: Seq<QueueEntry>, p: spec_fn(QueueEntry) -> bool, i: int)
    requires
        0 <= i,
    ensures
        match first_from(entries, p, i) {
            Some(k) => i <= k < entries.len() && p(entries[k]) && forall|j: int|
                i <= j < k ==> !p(#[trigger] entries[j]),
            None => forall|j: int| i <= j < entries.len() ==> !p(#[trigger] entries[j]),
        },
    decreases entries.len() - i,
{
    if i < entries.len() && !p(entries[i]) {
        lemma_first_from(entries, p, i + 1);
    }
}

/// How the first matching entry relates to the entries: it satisfies `p`
/// and none before it does; without one, none does.
pub proof fn lemma_first_entry(entries: Seq<QueueEntry>, p: spec_fn(QueueEntry) -> bool)
    ensures
        match first_entry(entries, p) {
            Some(k) => 0 <= k < entries.len() && p(entries[k]) && forall|j: int|
                0 <= j < k ==> !p(#[trigger] entries[j]),
            None => forall|j: int| 0 <= j < entries.len() ==> !p(#[trigger] entries[j]),
        },
{
    lemma_first_from(entries, p, 0);
}

/// Before wrapping past the largest id once, stepping from `start` adds.
proof fn lemma_advance_id(start: u32, k: nat)
    requires
        start != 0,
        k < u32::MAX,
    ensures
        advance_id(start, k) == (if start + k <= u32::MAX {
            start + k
        } else {
            start + k - u32::MAX
        }),
    decreases k,
{
    if k > 0 {
        lemma_advance_id(start, (k - 1) as nat);
    }
}

/// Among the first `used.len() + 1` ids from `start` at least one is free.
proof fn lemma_some_free(used: Seq<u32>, start: u32)
    requires
        start != 0,
        used.len() < 1000,
    ensures
        exists|k: nat| k <= used.len() && !used.contains(#[trigger] advance_id(start, k)),
{
    let n = used.len();
    let candidates = Seq::new(n + 1, |j: int| advance_id(start, j as nat));
    assert(candidates.no_duplicates()) by {
        assert forall|a: int, b: int|
            0 <= a < candidates.len() && 0 <= b < candidates.len() && a != b implies candidates[a]
            != candidates[b] by {
            lemma_advance_id(start, a as nat);
            lemma_advance_id(start, b as nat);
        }
    }
    if forall|k: nat| k <= n ==> used.contains(#[trigger] advance_id(start, k)) {
        candidates.unique_seq_to_set();
        used.lemma_cardinality_of_set();
        assert(candidates.to_set().subset_of(used.to_set())) by {
            assert forall|x: u32| candidates.to_set().contains(x) implies used.to_set().contains(x) by {
                let j = choose|j: int| 0 <= j < candidates.len() && candidates[j] == x;
                assert(used.contains(advance_id(start, j as nat)));
            }
        }
        vstd::seq_lib::seq_to_set_is_finite(used);
        vstd::set_lib::lemma_len_subset(candidates.to_set(), used.to_set());
        assert(false);
    }
}

impl NotificationQueue {
    /// The queued entries, oldest first.
    pub closed spec fn entries(&self) -> Seq<QueueEntry> {
        self.entries@
    }

    /// The id the next new notification is offered.
    pub closed spec fn spec_next_id(&self) -> u32 {
        self.next_id
    }

    /// At most the live limit of entries, each with a distinct nonzero id and
    /// a well-formed notification; the next id is never 0.
    pub closed spec fn wf(&self) -> bool {
        &&& self.entries@.len() <= MAX_LIVE_NOTIFICATIONS
        &&& self.next_id != 0
        &&& entry_ids(self.entries@).no_duplicates()
        &&& !entry_ids(self.entries@).contains(0)
        &&& forall|i: int|
            0 <= i < self.entries@.len() ==> (#[trigger] self.entries@[i]).notification.wf()
    }

    pub fn new() -> (q: Self)
        ensures
            q.wf(),
            q.entries() == Seq::<QueueEntry>::empty(),
            q.spec_next_id() == 1,
    {
        let q = NotificationQueue { next_id: 1, entries: Vec::new() };
        assert(entry_ids(q.entries@) =~= Seq::<u32>::empty());
        q
    }

    pub fn len(&self) -> (n: usize)
        ensures
            n == self.entries().len(),
    {
        self.entries.len()
    }

    pub fn entry(&self, i: usize) -> (e: &QueueEntry)
        requires
            i < self.entries().len(),
        ensures
            *e == self.entries()[i as int],
    {
        &self.entries[i]
    }

    fn contains_id(&self, id: u32) -> (b: bool)
        ensures
            b == entry_ids(self.entries@).contains(id),
    {
        let mut i: usize = 0;
        while i < self.entries.len()
            invariant
                i <= self.entries@.len(),
                forall|j: int| 0 <= j < i ==> self.entries@[j].notification.id != id,
            decreases self.entries@.len() - i,
        {
            if self.entries[i].notification.id == id {
                assert(entry_ids(self.entries@)[i as int] == id);
                return true;
            }
            i = i + 1;
        }
        assert forall|j: int| 0 <= j < entry_ids(self.entries@).len() implies entry_ids(
            self.entries@,
        )[j] != id by {
            assert(entry_ids(self.entries@)[j] == self.entries@[j].notification.id);
        }
        false
    }

    /// Hands out the first id from the next one on that no queued
    /// notification uses, and moves the next id past it.
    pub fn next_id(&mut self) -> (id: u32)
        requires
            old(self).wf(),
        ensures
            final(self).wf(),
            final(self).entries() == old(self).entries(),
            id != 0,
            first_free_id(entry_ids(old(self).entries()), old(self).spec_next_id(), id),
            final(self).spec_next_id() == succ_id(id),
    {
        let ghost start = self.next_id;
        let ghost used = entry_ids(self.entries@);
        proof {
            lemma_some_free(used, start);
        }
        let ghost free_k: nat = choose|k: nat|
            k <= used.len() && !used.contains(#[trigger] advance_id(start, k));
        let ghost mut k: nat = 0;
        loop
            invariant
                self.wf(),
                self.entries@ == old(self).entries@,
                entry_ids(self.entries@) == used,
                used == entry_ids(old(self).entries@),
                start == old(self).next_id,
                self.next_id == advance_id(start, k),
                k <= free_k,
                free_k <= used.len(),
                !used.contains(advance_id(start, free_k)),
                forall|j: nat| j < k ==> used.contains(#[trigger] advance_id(start, j)),
            decreases used.len() - k,
        {
            let id = self.next_id;
            self.next_id = if id == u32::MAX {
                1
            } else {
                id + 1
            };
            if !self.contains_id(id) {
                proof {
                    assert(advance_id(start, k) == id);
                    assert(first_free_id(used, start, id));
                }
                return id;
            }
            proof {
                k = k + 1;
            }
        }
    }

    /// The index of the first entry for notification `id`, of the given
    /// generation when one is given.
    fn position(&self, id: u32, generation: Option<u64>) -> (r: Option<usize>)
        ensures
            match r {
                Some(i) => i < self.entries@.len() && first_entry(
                    self.entries@,
                    is_instance(id, generation),
                ) == Some(i as int),
                None => first_entry(self.entries@, is_instance(id, generation)) is None,
            },
    {
        let ghost p = is_instance(id, generation);
        let mut i: usize = 0;
        while i < self.entries.len()
            invariant
                i <= self.entries@.len(),
                p == is_instance(id, generation),
                first_entry(self.entries@, p) == first_from(self.entries@, p, i as int),
            decreases self.entries@.len() - i,
        {
            let entry = &self.entries[i];
            let found = entry.notification.id == id && match generation {
                Some(g) => entry.generation == g,
                None => true,
            };
            assert(p(self.entries@[i as int]) == found);
            if found {
                return Some(i);
            }
            i = i + 1;
        }
        None
    }

    /// The index of the queued notification that `candidate` replaces: the
    /// one with id `replaces_id` when that is not 0, otherwise the first with
    /// the same stack tag from the same application.
    pub fn find_replacement(&self, replaces_id: u32, candidate: &Notification) -> (r: Option<usize>)
        ensures
            match r {
                Some(i) => first_entry(self.entries(), replaces(replaces_id, *candidate)) == Some(
                    i as int,
                ),
                None => first_entry(self.entries(), replaces(replaces_id, *candidate)) is None,
            },
    {
        let ghost p = replaces(replaces_id, *candidate);
        if replaces_id != 0 {
            let r = self.position(replaces_id, None);
            proof {
                assert(is_instance(replaces_id, None) =~= p);
            }
            return r;
        }
        let tag = match candidate.stack_tag() {
            Some(tag) => tag,
            None => {
                proof {
                    assert(first_entry(self.entries@, p) == first_from(self.entries@, p, 0));
                    lemma_first_entry(self.entries@, p);
                    if first_entry(self.entries@, p) is Some {
                        let k = first_entry(self.entries@, p)->Some_0;
                        assert(p(self.entries@[k]));
                    }
                }
                return None;
            },
        };
        let mut i: usize = 0;
        while i < self.entries.len()
            invariant
                i <= self.entries@.len(),
                replaces_id == 0,
                candidate.hints.stack_tag is Some,
                tag@ == candidate.hints.stack_tag->Some_0@,
                p == replaces(replaces_id, *candidate),
                first_entry(self.entries@, p) == first_from(self.entries@, p, i as int),
            decreases self.entries@.len() - i,
        {
            let entry = &self.entries[i];
            let same_tag = match entry.notification.stack_tag() {
                Some(t) => str_eq(t, tag),
                None => false,
            };
            let found = same_tag && same_source(&entry.notification, candidate);
            assert(p(self.entries@[i as int]) == found);
            if found {
                return Some(i);
            }
            i = i + 1;
        }
        None
    }

    /// Takes out the first entry for notification `id`, of the given
    /// generation when one is given.
    pub fn remove(&mut self, id: u32, generation: Option<u64>) -> (r: Option<QueueEntry>)
        requires
            old(self).wf(),
        ensures
            final(self).wf(),
            final(self).spec_next_id() == old(self).spec_next_id(),
            match first_entry(old(self).entries(), is_instance(id, generation)) {
                Some(i) => r == Some(old(self).entries()[i]) && final(self).entries() == old(
                    self,
                ).entries().remove(i),
                None => r is None && final(self).entries() == old(self).entries(),
            },
    {
        match self.position(id, generation) {
            Some(i) => {
                let ghost before = self.entries@;
                let entry = self.entries.remove(i);
                proof {
                    assert(entry_ids(self.entries@) =~= entry_ids(before).remove(i as int));
                    assert forall|a: int, b: int|
                        0 <= a < entry_ids(self.entries@).len() && 0 <= b < entry_ids(
                            self.entries@,
                        ).len() && a != b implies entry_ids(self.entries@)[a] != entry_ids(
                            self.entries@,
                        )[b] by {
                        let a2 = if a < i { a } else { a + 1 };
                        let b2 = if b < i { b } else { b + 1 };
                        assert(entry_ids(before)[a2] != entry_ids(before)[b2]);
                    }
                    assert forall|j: int| 0 <= j < self.entries@.len() implies (
                    #[trigger] self.entries@[j]).notification.wf() by {
                        if j < i {
                            assert(self.entries@[j] == before[j]);
                        } else {
                            assert(self.entries@[j] == before[j + 1]);
                        }
                    }
                    if entry_ids(self.entries@).contains(0) {
                        let j = choose|j: int|
                            0 <= j < entry_ids(self.entries@).len() && entry_ids(self.entries@)[j]
                                == 0;
                        let j2 = if j < i { j } else { j + 1 };
                        assert(entry_ids(before)[j2] == 0);
                    }
                }
                Some(entry)
            },
            None => None,
        }
    }

    /// Turns away a notification its rules block: it is given the next id,
    /// which it reports back, and is not stored. `None`, with the queue
    /// unchanged, when the notification is let through.
    pub fn turn_away(&mut self, action: RuleAction) -> (r: Option<u32>)
        requires
            old(self).wf(),
        ensures
            final(self).wf(),
            final(self).entries() == old(self).entries(),
            action == RuleAction::Block ==> (r matches Some(id) && id != 0 && first_free_id(
                entry_ids(old(self).entries()),
                old(self).spec_next_id(),
                id,
            ) && final(self).spec_next_id() == succ_id(id)),
            action != RuleAction::Block ==> r is None && final(self).spec_next_id() == old(
                self,
            ).spec_next_id(),
    {
        match action {
            RuleAction::Block => Some(self.next_id()),
            RuleAction::Allow => None,
        }
    }

    /// Stores a notification: in place of the one it replaces, keeping that
    /// one's id and bumping its generation; otherwise at the back under a
    /// fresh id, unless the queue is full, in which case it is rejected and
    /// the fresh id is only reported.
    pub fn enqueue(
        &mut self,
        replaces_id: u32,
        notification: Notification,
        style: NotificationConfig,
        timeout_policy: TimeoutPolicy,
        timeout: Option<u64>,
    ) -> (outcome: EnqueueOutcome)
        requires
            old(self).wf(),
            notification.wf(),
        ensures
            final(self).wf(),
            match first_entry(old(self).entries(), replaces(replaces_id, notification)) {
                Some(i) => {
                    let id = old(self).entries()[i].notification.id;
                    &&& outcome == EnqueueOutcome::Stored(id)
                    &&& final(self).entries() == old(self).entries().update(
                        i,
                        new_entry(
                            notification,
                            id,
                            next_generation(old(self).entries()[i].generation),
                            style,
                            timeout_policy,
                            timeout,
                        ),
                    )
                    &&& final(self).spec_next_id() == old(self).spec_next_id()
                },
                None => {
                    let id = outcome_id(outcome);
                    &&& id != 0
                    &&& first_free_id(entry_ids(old(self).entries()), old(self).spec_next_id(), id)
                    &&& final(self).spec_next_id() == succ_id(id)
                    &&& if old(self).entries().len() >= MAX_LIVE_NOTIFICATIONS {
                        &&& outcome == EnqueueOutcome::Rejected(id)
                        &&& final(self).entries() == old(self).entries()
                    } else {
                        &&& outcome == EnqueueOutcome::Stored(id)
                        &&& final(self).entries() == old(self).entries().push(
                            new_entry(notification, id, 1, style, timeout_policy, timeout),
                        )
                    }
                },
            },
    {
        let ghost before = self.entries@;
        let ghost n = notification;
        let mut notification = notification;
        match self.find_replacement(replaces_id, &notification) {
            Some(i) => {
                proof {
                    lemma_first_entry(before, replaces(replaces_id, n));
                }
                let id = self.entries[i].notification.id;
                let generation = self.entries[i].generation.wrapping_add(1);
                notification.id = id;
                self.entries.set(
                    i,
                    QueueEntry {
                        notification,
                        generation,
                        style,
                        timeout_policy,
                        timeout,
                        timer_started: false,
                    },
                );
                proof {
                    assert(entry_ids(self.entries@) =~= entry_ids(before));
                    assert forall|j: int| 0 <= j < self.entries@.len() implies (
                    #[trigger] self.entries@[j]).notification.wf() by {
                        if j != i {
                            assert(self.entries@[j] == before[j]);
                        }
                    }
                    assert(self.entries@ =~= before.update(
                        i as int,
                        new_entry(n, id, next_generation(before[i as int].generation), style, timeout_policy, timeout),
                    ));
                }
                EnqueueOutcome::Stored(id)
            },
            None => {
                if self.entries.len() >= MAX_LIVE_NOTIFICATIONS {
                    let id = self.next_id();
                    EnqueueOutcome::Rejected(id)
                } else {
                    let id = self.next_id();
                    notification.id = id;
                    self.entries.push(
                        QueueEntry {
                            notification,
                            generation: 1,
                            style,
                            timeout_policy,
                            timeout,
                            timer_started: false,
                        },
                    );
                    proof {
                        let used = entry_ids(before);
                        assert(entry_ids(self.entries@) =~= used.push(id));
                        assert forall|a: int, b: int|
                            0 <= a < used.len() + 1 && 0 <= b < used.len() + 1 && a != b implies used.push(
                                id,
                            )[a] != used.push(id)[b] by {
                            if a < used.len() && b < used.len() {
                            } else if a == used.len() {
                                assert(used.contains(used[b]));
                            } else {
                                assert(used.contains(used[a]));
                            }
                        }
                        assert forall|j: int| 0 <= j < self.entries@.len() implies (
                        #[trigger] self.entries@[j]).notification.wf() by {
                            if j < before.len() {
                                assert(self.entries@[j] == before[j]);
                            }
                        }
                        if entry_ids(self.entries@).contains(0) {
                            let j = choose|j: int|
                                0 <= j < entry_ids(self.entries@).len() && entry_ids(
                                    self.entries@,
                                )[j] == 0;
                            if j < used.len() {
                                assert(used.contains(used[j]));
                            }
                        }
                        assert(self.entries@ =~= before.push(
                            new_entry(n, id, 1, style, timeout_policy, timeout),
                        ));
                    }
                    EnqueueOutcome::Stored(id)
                }
            },
        }
    }
    /// Sets the timer of entry `i` as started.
    fn start_timer(&mut self, i: usize)
        requires
            old(self).wf(),
            i < old(self).entries().len(),
        ensures
            final(self).wf(),
            final(self).spec_next_id() == old(self).spec_next_id(),
            final(self).entries() == old(self).entries().update(
                i as int,
                QueueEntry { timer_started: true, ..old(self).entries()[i as int] },
            ),
    {
        let ghost before = self.entries@;
        self.entries[i].timer_started = true;
        proof {
            assert(self.entries@ =~= before.update(
                i as int,
                QueueEntry { timer_started: true, ..before[i as int] },
            ));
            assert(entry_ids(self.entries@) =~= entry_ids(before));
            assert forall|j: int| 0 <= j < self.entries@.len() implies (
            #[trigger] self.entries@[j]).notification.wf() by {
                assert(self.entries@[j].notification == before[j].notification);
            }
        }
    }

    /// Decides what a lifecycle event does to the queue: a notification
    /// shown for the first time starts its expiry timer, a dismissed one is
    /// taken out and may invoke its default action, and an expiry takes out
    /// only the generation it was started for.
    pub fn handle(&mut self, command: LifecycleCommand) -> (action: LifecycleAction)
        requires
            old(self).wf(),
        ensures
            final(self).wf(),
            final(self).spec_next_id() == old(self).spec_next_id(),
            lifecycle_step(old(self).entries(), command, final(self).entries(), action),
    {
        match command {
            LifecycleCommand::Visible { id, generation } => {
                proof {
                    lemma_first_entry(self.entries@, is_instance(id, Some(generation)));
                }
                match self.position(id, Some(generation)) {
                    None => LifecycleAction::Ignore,
                    Some(i) => {
                        if self.entries[i].timer_started {
                            LifecycleAction::Ignore
                        } else {
                            let timeout = self.entries[i].timeout;
                            self.start_timer(i);
                            match timeout {
                                Some(milliseconds) => LifecycleAction::StartTimer {
                                    id,
                                    generation,
                                    milliseconds,
                                },
                                None => LifecycleAction::Ignore,
                            }
                        }
                    },
                }
            },
            LifecycleCommand::Dismiss { id } => {
                proof {
                    lemma_first_entry(self.entries@, is_instance(id, None));
                }
                match self.remove(id, None) {
                    None => LifecycleAction::Ignore,
                    Some(entry) => {
                        proof {
                            reveal_strlit("default");
                        }
                        let invoke_default = entry.notification.actions.contains_key("default");
                        LifecycleAction::Dismissed { id, invoke_default }
                    },
                }
            },
            LifecycleCommand::Expire { id, generation } => {
                match self.remove(id, Some(generation)) {
                    None => LifecycleAction::Ignore,
                    Some(_) => LifecycleAction::Expired { id },
                }
            },
        }
    }

    /// Brings every entry's style, and the timeout of those whose timer has
    /// not started, up to date with a new configuration.
    pub fn refresh_presentation(&mut self, config: &PigeonConfig)
        requires
            old(self).wf(),
            config.loaded(),
        ensures
            final(self).wf(),
            final(self).spec_next_id() == old(self).spec_next_id(),
            final(self).entries().len() == old(self).entries().len(),
            forall|i: int|
                0 <= i < old(self).entries().len() ==> refreshed(
                    #[trigger] old(self).entries()[i],
                    final(self).entries()[i],
                    *config,
                ),
    {
        let ghost before = self.entries@;
        let mut i: usize = 0;
        while i < self.entries.len()
            invariant
                self.wf(),
                config.loaded(),
                self.next_id == old(self).next_id,
                before == old(self).entries@,
                i <= self.entries@.len(),
                self.entries@.len() == before.len(),
                forall|j: int| 0 <= j < i ==> refreshed(#[trigger] before[j], self.entries@[j], *config),
                forall|j: int| i <= j < before.len() ==> #[trigger] self.entries@[j] == before[j],
            decreases self.entries@.len() - i,
        {
            let presentation = config.presentation_for(&self.entries[i].notification);
            let timeout = if self.entries[i].timer_started {
                self.entries[i].timeout
            } else {
                resolve(
                    self.entries[i].timeout_policy,
                    &presentation.timeouts,
                    &self.entries[i].notification,
                )
            };
            let ghost prior = self.entries@;
            self.entries[i].style = presentation.style;
            self.entries[i].timeout = timeout;
            proof {
                assert(forall|j: int| 0 <= j < self.entries@.len() && j != i ==> self.entries@[j] == prior[j]);
                assert(entry_ids(self.entries@) =~= entry_ids(prior));
                assert forall|j: int| 0 <= j < self.entries@.len() implies (
                #[trigger] self.entries@[j]).notification.wf() by {
                    assert(self.entries@[j].notification == prior[j].notification);
                }
            }
            i = i + 1;
        }
    }
}

/// What became of a notification that was handed to the queue.
#[derive(Clone, Copy, Debug, PartialEq, Eq, Structural)]
pub enum EnqueueOutcome {
    /// It is queued under this id.
    Stored(u32),
    /// The queue was full; it is closed at once under this id.
    Rejected(u32),
}

/// The id an outcome reports.
pub open spec fn outcome_id(o: EnqueueOutcome) -> u32 {
    match o {
        EnqueueOutcome::Stored(id) => id,
        EnqueueOutcome::Rejected(id) => id,
    }
}

/// An event about a queued notification.
#[derive(Clone, Copy, Debug, PartialEq, Eq, Structural)]
pub enum LifecycleCommand {
    /// The popup showed this generation of the notification.
    Visible { id: u32, generation: u64 },
    /// The user dismissed the notification.
    Dismiss { id: u32 },
    /// The timer started for this generation ran out.
    Expire { id: u32, generation: u64 },
}

/// What the daemon does after a lifecycle event.
#[derive(Clone, Copy, Debug, PartialEq, Eq, Structural)]
pub enum LifecycleAction {
    /// Nothing.
    Ignore,
    /// Start a timer that sends `Expire` for this generation after the given
    /// milliseconds.
    StartTimer { id: u32, generation: u64, milliseconds: u64 },
    /// The notification was taken out; announce it closed as dismissed, after
    /// invoking its default action when it has one.
    Dismissed { id: u32, invoke_default: bool },
    /// The notification was taken out; announce it closed as expired.
    Expired { id: u32 },
}

/// How a lifecycle event moves the queue's entries from `before` to
/// `after`, and the action it calls for.
pub open spec fn lifecycle_step(
    before: Seq<QueueEntry>,
    command: LifecycleCommand,
    after: Seq<QueueEntry>,
    action: LifecycleAction,
) -> bool {
    match command {
        LifecycleCommand::Visible { id, generation } => match first_entry(
            before,
            is_instance(id, Some(generation)),
        ) {
            None => action == LifecycleAction::Ignore && after == before,
            Some(i) => if before[i].timer_started {
                action == LifecycleAction::Ignore && after == before
            } else {
                &&& after == before.update(i, QueueEntry { timer_started: true, ..before[i] })
                &&& action == match before[i].timeout {
                    Some(ms) => LifecycleAction::StartTimer { id, generation, milliseconds: ms },
                    None => LifecycleAction::Ignore,
                }
            },
        },
        LifecycleCommand::Dismiss { id } => match first_entry(before, is_instance(id, None)) {
            None => action == LifecycleAction::Ignore && after == before,
            Some(i) => {
                &&& after == before.remove(i)
                &&& action == LifecycleAction::Dismissed {
                    id,
                    invoke_default: before[i].notification.actions@.contains_key("default"@),
                }
            },
        },
        LifecycleCommand::Expire { id, generation } => match first_entry(
            before,
            is_instance(id, Some(generation)),
        ) {
            None => action == LifecycleAction::Ignore && after == before,
            Some(i) => after == before.remove(i) && action == LifecycleAction::Expired { id },
        },
    }
}

/// `after` is `before` brought up to date with `config`: the same
/// notification, generation, policy and timer state, the style the
/// configuration gives, and, unless its timer has started, the timeout it
/// gives.
pub open spec fn refreshed(before: QueueEntry, after: QueueEntry, config: PigeonConfig) -> bool {
    let p = presentation_for_model(config, before.notification)->Some_0;
    &&& after.notification == before.notification
    &&& after.generation == before.generation
    &&& after.timeout_policy == before.timeout_policy
    &&& after.timer_started == before.timer_started
    &&& after.style@ == p.style
    &&& after.timeout == if before.timer_started {
        before.timeout
    } else {
        resolved_timeout(before.timeout_policy, p.timeouts, before.notification.hints.urgency)
    }
}

proof fn lemma_first_from_update(
    s: Seq<QueueEntry>,
    p: spec_fn(QueueEntry) -> bool,
    i: int,
    k: int,
    x: QueueEntry,
)
    requires
        0 <= k < s.len(),
        0 <= i,
        p(x) == p(s[k]),
    ensures
        first_from(s.update(k, x), p, i) == first_from(s, p, i),
    decreases s.len() - i,
{
    if i < s.len() {
        lemma_first_from_update(s, p, i + 1, k, x);
    }
}

/// Every queue operation keeps the queue well formed; a well-formed queue
/// holds at most the live limit of notifications, under distinct nonzero
/// ids.
pub proof fn lemma_queue_ids(q: NotificationQueue)
    requires
        q.wf(),
    ensures
        q.entries().len() <= MAX_LIVE_NOTIFICATIONS,
        entry_ids(q.entries()).no_duplicates(),
        !entry_ids(q.entries()).contains(0),
        q.spec_next_id() != 0,
{
}

/// A notification the popup reports visible twice starts its timer once:
/// the second report changes nothing and asks for nothing.
pub proof fn lemma_visible_starts_one_timer(
    before: Seq<QueueEntry>,
    id: u32,
    generation: u64,
    middle: Seq<QueueEntry>,
    first: LifecycleAction,
    after: Seq<QueueEntry>,
    second: LifecycleAction,
)
    requires
        lifecycle_step(before, LifecycleCommand::Visible { id, generation }, middle, first),
        lifecycle_step(middle, LifecycleCommand::Visible { id, generation }, after, second),
    ensures
        second == LifecycleAction::Ignore,
        after == middle,
{
    let p = is_instance(id, Some(generation));
    lemma_first_entry(before, p);
    if let Some(i) = first_entry(before, p) {
        if !before[i].timer_started {
            let x = QueueEntry { timer_started: true, ..before[i] };
            lemma_first_from_update(before, p, 0, i, x);
        }
    }
}

/// Once a notification is replaced, the expiry timer started for the
/// version it replaced closes nothing: the queue stays as it is.
pub proof fn lemma_stale_expiry_ignored(
    q: NotificationQueue,
    i: int,
    replacement: QueueEntry,
    after: Seq<QueueEntry>,
    action: LifecycleAction,
)
    requires
        q.wf(),
        0 <= i < q.entries().len(),
        replacement.notification.id == q.entries()[i].notification.id,
        replacement.generation == next_generation(q.entries()[i].generation),
        lifecycle_step(
            q.entries().update(i, replacement),
            LifecycleCommand::Expire {
                id: q.entries()[i].notification.id,
                generation: q.entries()[i].generation,
            },
            after,
            action,
        ),
    ensures
        action == LifecycleAction::Ignore,
        after == q.entries().update(i, replacement),
{
    let s = q.entries().update(i, replacement);
    let id = q.entries()[i].notification.id;
    let p = is_instance(id, Some(q.entries()[i].generation));
    lemma_first_entry(s, p);
    if let Some(k) = first_entry(s, p) {
        if k != i {
            assert(entry_ids(q.entries())[k] == entry_ids(q.entries())[i]);
        }
    }
}

/// A notification taken out by a dismissal or an expiry is no longer in
/// the queue under its id.
pub proof fn lemma_removed_id_gone(
    q: NotificationQueue,
    command: LifecycleCommand,
    after: Seq<QueueEntry>,
    action: LifecycleAction,
)
    requires
        q.wf(),
        lifecycle_step(q.entries(), command, after, action),
        action is Dismissed || action is Expired,
    ensures
        !entry_ids(after).contains(
            match action {
                LifecycleAction::Dismissed { id, .. } => id,
                LifecycleAction::Expired { id } => id,
                _ => 0,
            },
        ),
{
    let s = q.entries();
    let (id, generation) = match command {
        LifecycleCommand::Visible { id, generation } => (id, Some(generation)),
        LifecycleCommand::Dismiss { id } => (id, None),
        LifecycleCommand::Expire { id, generation } => (id, Some(generation)),
    };
    let p = is_instance(id, generation);
    lemma_first_entry(s, p);
    if let Some(i) = first_entry(s, p) {
        if !(command is Visible) {
            if entry_ids(after).contains(id) {
                let j = choose|j: int| 0 <= j < entry_ids(after).len() && entry_ids(after)[j] == id;
                let j2 = if j < i { j } else { j + 1 };
                assert(entry_ids(s)[j2] == entry_ids(s)[i]);
            }
        }
    }
}

/// The characters of each string.
pub open spec fn string_views(v: Seq<String>) -> Seq<Seq<char>> {
    v.map_values(|s: String| s@)
}

/// How many (identifier, label) pairs of a flat action list are kept.
pub open spec fn action_count(len: nat) -> nat {
    if len / 2 < MAX_ACTION_PAIRS {
        len / 2
    } else {
        MAX_ACTION_PAIRS as nat
    }
}

/// The actions the first `pairs` pairs of a flat list give, each side cut
/// to the short-text limit; a later pair with the same identifier wins.
pub open spec fn actions_map(a: Seq<Seq<char>>, pairs: nat) -> Map<Seq<char>, Seq<char>>
    decreases pairs,
{
    if pairs == 0 {
        Map::empty()
    } else {
        let k = 2 * (pairs - 1);
        actions_map(a, (pairs - 1) as nat).insert(
            truncated(a[k], MAX_SHORT_TEXT_BYTES as nat),
            truncated(a[k + 1], MAX_SHORT_TEXT_BYTES as nat),
        )
    }
}

/// Turns a flat list of action identifiers and labels into a map, keeping
/// at most the action limit of whole pairs; an odd last item is dropped.
pub fn normalize_actions(actions: Vec<String>) -> (m: StringMap)
    ensures
        m.wf(),
        m@ == actions_map(string_views(actions@), action_count(actions@.len())),
{
    let ghost a = string_views(actions@);
    let n = if actions.len() / 2 < MAX_ACTION_PAIRS {
        actions.len() / 2
    } else {
        MAX_ACTION_PAIRS
    };
    let mut m = StringMap::new();
    let mut i: usize = 0;
    while i < n
        invariant
            a == string_views(actions@),
            n == action_count(actions@.len()),
            i <= n,
            m.wf(),
            m@ == actions_map(a, i as nat),
        decreases n - i,
    {
        let key = truncate(actions[2 * i].clone(), MAX_SHORT_TEXT_BYTES);
        let value = truncate(actions[2 * i + 1].clone(), MAX_SHORT_TEXT_BYTES);
        m.insert(key, value);
        i = i + 1;
    }
    m
}

/// A hint's value as the daemon reads it: what it holds when read as each
/// of the types the hints it knows use.
pub struct HintValue {
    pub byte: Option<u8>,
    pub int32: Option<i32>,
    pub boolean: Option<bool>,
    pub text: Option<String>,
}

/// The text of a hint, cut to the short-text limit.
pub open spec fn hint_text(v: HintValue) -> Option<Seq<char>> {
    match v.text {
        Some(t) => Some(truncated(t@, MAX_SHORT_TEXT_BYTES as nat)),
        None => None,
    }
}

/// Hints that carry image data or paths, which the image cache handles.
pub open spec fn is_image_key(k: Seq<char>) -> bool {
    k == "image-data"@ || k == "image_data"@ || k == "icon_data"@ || k == "image-path"@ || k
        == "image_path"@
}

/// Hints that name a stack tag.
pub open spec fn is_stack_key(k: Seq<char>) -> bool {
    k == "x-dunst-stack-tag"@ || k == "x-canonical-private-synchronous"@
}

/// Hints with nothing set.
pub open spec fn no_hints() -> HintsModel {
    HintsModel {
        desktop_entry: None,
        category: None,
        urgency: None,
        progress: None,
        transient: None,
        resident: None,
        profile: None,
        stack_tag: None,
        strings: Map::empty(),
    }
}

/// The hints the first `n` raw hints give, read in order: known hints set
/// their field, image and stack-tag hints are skipped, and any other hint
/// with a text value is kept as a string hint, cut to the short-text limit,
/// while there is room for a new key.
pub open spec fn hints_after(h: Seq<(String, HintValue)>, n: nat) -> HintsModel
    decreases n,
{
    if n == 0 || n > h.len() {
        no_hints()
    } else {
        let m = hints_after(h, (n - 1) as nat);
        let k = h[n - 1].0@;
        let v = h[n - 1].1;
        if is_image_key(k) || is_stack_key(k) {
            m
        } else if k == "urgency"@ {
            HintsModel { urgency: v.byte, ..m }
        } else if k == "value"@ {
            HintsModel { progress: v.int32, ..m }
        } else if k == "transient"@ {
            HintsModel { transient: v.boolean, ..m }
        } else if k == "resident"@ {
            HintsModel { resident: v.boolean, ..m }
        } else if k == "desktop-entry"@ {
            HintsModel { desktop_entry: hint_text(v), ..m }
        } else if k == "category"@ {
            HintsModel { category: hint_text(v), ..m }
        } else if k == "x-pigeon-profile"@ {
            HintsModel { profile: hint_text(v), ..m }
        } else {
            match hint_text(v) {
                Some(t) => {
                    let key = truncated(k, MAX_SHORT_TEXT_BYTES as nat);
                    if m.strings.dom().len() < MAX_STRING_HINTS || m.strings.contains_key(key) {
                        HintsModel { strings: m.strings.insert(key, t), ..m }
                    } else {
                        m
                    }
                },
                None => m,
            }
        }
    }
}

/// From index `i` on, the text of the first raw hint named `key`; `None`
/// when there is none or it holds no text.
pub open spec fn text_from(h: Seq<(String, HintValue)>, key: Seq<char>, i: int) -> Option<Seq<char>>
    decreases h.len() - i,
{
    if i < 0 || i >= h.len() {
        None
    } else if h[i].0@ == key {
        hint_text(h[i].1)
    } else {
        text_from(h, key, i + 1)
    }
}

/// The hints a notification gets from its raw hints; the stack tag comes
/// from `x-dunst-stack-tag`, or failing that from
/// `x-canonical-private-synchronous`.
pub open spec fn normalized_hints(h: Seq<(String, HintValue)>) -> HintsModel {
    HintsModel {
        stack_tag: match text_from(h, "x-dunst-stack-tag"@, 0) {
            Some(t) => Some(t),
            None => text_from(h, "x-canonical-private-synchronous"@, 0),
        },
        ..hints_after(h, h.len())
    }
}

fn string_hint(value: &HintValue) -> (r: Option<String>)
    ensures
        opt_view(r) == hint_text(*value),
{
    match &value.text {
        Some(t) => Some(truncate(t.clone(), MAX_SHORT_TEXT_BYTES)),
        None => None,
    }
}

/// The characters of an optional string.
pub open spec fn opt_view(o: Option<String>) -> Option<Seq<char>> {
    match o {
        Some(s) => Some(s@),
        None => None,
    }
}

fn text_of(hints: &Vec<(String, HintValue)>, key: &str) -> (r: Option<String>)
    ensures
        opt_view(r) == text_from(hints@, key@, 0),
{
    let mut i: usize = 0;
    while i < hints.len()
        invariant
            i <= hints@.len(),
            text_from(hints@, key@, 0) == text_from(hints@, key@, i as int),
        decreases hints@.len() - i,
    {
        if str_eq(hints[i].0.as_str(), key) {
            return string_hint(&hints[i].1);
        }
        i = i + 1;
    }
    None
}

/// The hints a notification keeps from the raw hints it was sent with.
pub fn normalize_hints(hints: &Vec<(String, HintValue)>) -> (r: NotificationHints)
    ensures
        r.wf(),
        r@ == normalized_hints(hints@),
{
    let ghost h = hints@;
    let mut normalized = NotificationHints::default();
    proof {
        assert(normalized@ =~= no_hints());
    }
    let mut i: usize = 0;
    while i < hints.len()
        invariant
            h == hints@,
            i <= h.len(),
            normalized.wf(),
            normalized.stack_tag is None,
            normalized@ == hints_after(h, i as nat),
        decreases h.len() - i,
    {
        let key = hints[i].0.as_str();
        let value = &hints[i].1;
        let ghost m = normalized@;
        proof {
            lemma_string_map(normalized.strings);
        }
        if str_eq(key, "image-data") || str_eq(key, "image_data") || str_eq(key, "icon_data")
            || str_eq(key, "image-path") || str_eq(key, "image_path") || str_eq(
            key,
            "x-dunst-stack-tag",
        ) || str_eq(key, "x-canonical-private-synchronous") {
        } else if str_eq(key, "urgency") {
            normalized.urgency = value.byte;
        } else if str_eq(key, "value") {
            normalized.progress = value.int32;
        } else if str_eq(key, "transient") {
            normalized.transient = value.boolean;
        } else if str_eq(key, "resident") {
            normalized.resident = value.boolean;
        } else if str_eq(key, "desktop-entry") {
            normalized.desktop_entry = string_hint(value);
        } else if str_eq(key, "category") {
            normalized.category = string_hint(value);
        } else if str_eq(key, "x-pigeon-profile") {
            normalized.profile = string_hint(value);
        } else {
            match string_hint(value) {
                Some(text) => {
                    let name = truncate(hints[i].0.clone(), MAX_SHORT_TEXT_BYTES);
                    normalized.insert_string(name, text);
                },
                None => {},
            }
        }
        proof {
            assert(normalized@ =~= hints_after(h, (i + 1) as nat));
        }
        i = i + 1;
    }
    let dunst = text_of(hints, "x-dunst-stack-tag");
    normalized.stack_tag = match dunst {
        Some(tag) => Some(tag),
        None => text_of(hints, "x-canonical-private-synchronous"),
    };
    proof {
        assert(normalized@ =~= normalized_hints(h));
    }
    normalized
}

/// Builds the notification a client sent, before it is given an id: each
/// text cut to its limit, actions and hints normalized, no image yet.
pub fn prepare_notification(
    app_name: String,
    app_icon: String,
    summary: String,
    body: String,
    actions: Vec<String>,
    hints: &Vec<(String, HintValue)>,
) -> (n: Notification)
    ensures
        n.wf(),
        n.id == 0,
        n.app_name@ == truncated(app_name@, MAX_SHORT_TEXT_BYTES as nat),
        n.app_icon@ == truncated(app_icon@, MAX_SHORT_TEXT_BYTES as nat),
        n.summary@ == truncated(summary@, MAX_SHORT_TEXT_BYTES as nat),
        n.body@ == truncated(body@, MAX_BODY_BYTES as nat),
        n.img is None,
        n.actions@ == actions_map(string_views(actions@), action_count(actions@.len())),
        n.hints@ == normalized_hints(hints@),
{
    Notification {
        id: 0,
        app_name: truncate(app_name, MAX_SHORT_TEXT_BYTES),
        app_icon: truncate(app_icon, MAX_SHORT_TEXT_BYTES),
        summary: truncate(summary, MAX_SHORT_TEXT_BYTES),
        body: truncate(body, MAX_BODY_BYTES),
        img: None,
        actions: normalize_actions(actions),
        hints: normalize_hints(hints),
    }
}

} // verus!
