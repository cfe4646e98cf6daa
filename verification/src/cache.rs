//! TTL-aware answer cache with an expiry-ordered index for prefetch.
//!
//! The cache is a keyed table from a question to the answer records last
//! returned for it, beside a parallel index of (question, expiry) pairs that
//! a background prefetch loop drains. Time is a monotonic clock handed in by
//! the caller as a plain number of seconds; nothing here reads a clock.
//! An entry expires a grace period before its answers' minimum TTL runs
//! out, so prefetch can refresh it before clients would see a stale answer.
//! Index entries are never deleted when a key is overwritten, so the index
//! may hold stale entries; consumers tolerate that.

use vstd::prelude::*;

verus! {

use crate::dns::{AnswerView, DnsAnswerSection, DnsPacket, DnsQuestionSection, QuestionView};

/// Seconds subtracted from an entry's minimum TTL when its expiry instant
/// is computed, so a refresh can happen before clients would notice.
pub const TTL_GRACE_PERIOD: u64 = 15;

/// Seconds the prefetch loop is told to sleep when the expiry index is
/// empty.
pub const PREFETCH_SLEEP_TIME: u64 = 1;

/// Addition on clock values that sticks at the top instead of wrapping.
pub open spec fn spec_sat_add(a: u64, b: u64) -> u64 {
    if a + b <= u64::MAX {
        (a + b) as u64
    } else {
        u64::MAX
    }
}

/// Saturating addition on clock values.
pub fn sat_add(a: u64, b: u64) -> (r: u64)
    ensures
        r == spec_sat_add(a, b),
{
    if a <= u64::MAX - b {
        a + b
    } else {
        u64::MAX
    }
}

/// When an entry was inserted and for how many seconds its answers were
/// valid then (the minimum TTL across the response's answers).
#[derive(Debug, Clone, Copy)]
pub struct CacheExpiry {
    pub insert_time: u64,
    pub ttl: u64,
}

impl CacheExpiry {
    /// The instant this entry expires: insertion time plus TTL minus the
    /// grace period. A TTL below the grace period counts as already run
    /// out, so the expiry clamps to the insertion time itself.
    pub open spec fn spec_expiry_time(self) -> u64 {
        if self.ttl >= TTL_GRACE_PERIOD {
            spec_sat_add(self.insert_time, (self.ttl - TTL_GRACE_PERIOD) as u64)
        } else {
            self.insert_time
        }
    }

    /// Computes the expiry instant.
    pub fn expiry_time(&self) -> (r: u64)
        ensures
            r == self.spec_expiry_time(),
    {
        if self.ttl >= TTL_GRACE_PERIOD {
            sat_add(self.insert_time, self.ttl - TTL_GRACE_PERIOD)
        } else {
            self.insert_time
        }
    }

    /// Whether the expiry instant lies strictly in the past at `now`.
    pub fn is_expired(&self, now: u64) -> (r: bool)
        ensures
            r == (now > self.spec_expiry_time()),
    {
        now > self.expiry_time()
    }
}

/// A cached answer set with its expiry bookkeeping.
#[derive(Debug)]
pub struct DnsCacheEntry {
    pub value: Vec<DnsAnswerSection>,
    pub expiry: CacheExpiry,
}

/// One keyed slot of the cache table.
#[derive(Debug)]
pub struct CacheSlot {
    pub key: DnsQuestionSection,
    pub entry: DnsCacheEntry,
}

/// One entry of the expiry index.
#[derive(Debug)]
pub struct DnsHeapEntry {
    pub question: DnsQuestionSection,
    pub expiry: CacheExpiry,
}

/// The keyed table seen as a map from question to entry; a later slot with
/// the same key would win, and well-formedness rules repeated keys out.
pub open spec fn slots_map(s: Seq<CacheSlot>) -> Map<QuestionView, DnsCacheEntry>
    decreases s.len(),
{
    if s.len() == 0 {
        Map::empty()
    } else {
        slots_map(s.drop_last()).insert(s.last().key@, s.last().entry)
    }
}

/// Minimum TTL across the first `n` of a response's answers.
pub open spec fn spec_min_ttl_upto(ans: Seq<AnswerView>, n: int) -> u32
    decreases n,
{
    if n <= 1 {
        ans[0].ttl
    } else {
        let p = spec_min_ttl_upto(ans, n - 1);
        if ans[n - 1].ttl < p {
            ans[n - 1].ttl
        } else {
            p
        }
    }
}

/// Minimum TTL across a response's answers.
pub open spec fn spec_min_ttl(ans: Seq<AnswerView>) -> u32 {
    spec_min_ttl_upto(ans, ans.len() as int)
}

/// Law: the minimum TTL is attained by some answer and is no larger than
/// any answer's TTL.
pub proof fn lemma_min_ttl_is_min(ans: Seq<AnswerView>)
    requires
        ans.len() > 0,
    ensures
        forall|j: int| 0 <= j < ans.len() ==> spec_min_ttl(ans) <= ans[j].ttl,
        exists|j: int| 0 <= j < ans.len() && spec_min_ttl(ans) == ans[j].ttl,
{
    lemma_min_ttl_upto(ans, ans.len() as int);
}

proof fn lemma_min_ttl_upto(ans: Seq<AnswerView>, n: int)
    requires
        1 <= n <= ans.len(),
    ensures
        forall|j: int| 0 <= j < n ==> spec_min_ttl_upto(ans, n) <= ans[j].ttl,
        exists|j: int| 0 <= j < n && spec_min_ttl_upto(ans, n) == ans[j].ttl,
    decreases n,
{
    if n > 1 {
        lemma_min_ttl_upto(ans, n - 1);
    }
}

/// First index with the smallest expiry instant among the first `n` index
/// entries.
pub open spec fn min_exp_upto(h: Seq<DnsHeapEntry>, n: int) -> int
    decreases n,
{
    if n <= 1 {
        0
    } else {
        let p = min_exp_upto(h, n - 1);
        if h[n - 1].expiry.spec_expiry_time() < h[p].expiry.spec_expiry_time() {
            n - 1
        } else {
            p
        }
    }
}

/// First index with the smallest expiry instant in the expiry index.
pub open spec fn min_exp_idx(h: Seq<DnsHeapEntry>) -> int {
    min_exp_upto(h, h.len() as int)
}

proof fn lemma_min_exp_upto(h: Seq<DnsHeapEntry>, n: int)
    requires
        1 <= n <= h.len(),
    ensures
        0 <= min_exp_upto(h, n) < n,
        forall|j: int|
            0 <= j < n ==> h[min_exp_upto(h, n)].expiry.spec_expiry_time() <= #[trigger] h[
                j
            ].expiry.spec_expiry_time(),
    decreases n,
{
    if n > 1 {
        lemma_min_exp_upto(h, n - 1);
    }
}

/// Law: among the entries of the expiry index, the one the scheduler looks
/// at has the smallest expiry instant of all.
pub proof fn lemma_min_exp_idx_is_min(h: Seq<DnsHeapEntry>)
    requires
        h.len() > 0,
    ensures
        0 <= min_exp_idx(h) < h.len(),
        forall|j: int|
            0 <= j < h.len() ==> h[min_exp_idx(h)].expiry.spec_expiry_time() <= #[trigger] h[
                j
            ].expiry.spec_expiry_time(),
{
    lemma_min_exp_upto(h, h.len() as int);
}

/// The keyed answer cache and its expiry index.
#[derive(Debug)]
pub struct DnsCache {
    entries: Vec<CacheSlot>,
    expiry_heap: Vec<DnsHeapEntry>,
}

impl DnsCache {
    /// The keyed slots, as ghost state.
    pub closed spec fn slots(self) -> Seq<CacheSlot> {
        self.entries@
    }

    /// The expiry index, as ghost state.
    pub closed spec fn heap_entries(self) -> Seq<DnsHeapEntry> {
        self.expiry_heap@
    }

    /// Well-formedness: no two slots cache the same question.
    pub open spec fn wf(self) -> bool {
        forall|i: int, j: int|
            0 <= i < j < self.slots().len() ==> self.slots()[i].key@ != self.slots()[j].key@
    }

    /// The cache contents as a map from question to entry.
    pub open spec fn as_map(self) -> Map<QuestionView, DnsCacheEntry> {
        slots_map(self.slots())
    }

    /// Whether a single question is served from the cache at `now`: it has
    /// an entry whose expiry instant has not passed.
    pub open spec fn spec_question_hit(self, q: QuestionView, now: u64) -> bool {
        self.as_map().contains_key(q) && now <= self.as_map()[q].expiry.spec_expiry_time()
    }

    /// Whether every question of a request is served from the cache at
    /// `now`.
    pub open spec fn spec_all_hit(self, qs: Seq<QuestionView>, now: u64) -> bool {
        forall|i: int| 0 <= i < qs.len() ==> self.spec_question_hit(qs[i], now)
    }

    /// An empty cache.
    pub fn new() -> (r: DnsCache)
        ensures
            r.wf(),
            r.slots().len() == 0,
            r.heap_entries().len() == 0,
            r.as_map() == Map::<QuestionView, DnsCacheEntry>::empty(),
    {
        DnsCache { entries: Vec::new(), expiry_heap: Vec::new() }
    }
}

/// The answers of every question of `qs` that the map serves, concatenated
/// in question order; a question without an entry contributes nothing.
pub open spec fn spec_cached_answers(
    m: Map<QuestionView, DnsCacheEntry>,
    qs: Seq<QuestionView>,
) -> Seq<AnswerView>
    decreases qs.len(),
{
    if qs.len() == 0 {
        Seq::empty()
    } else {
        (if m.contains_key(qs[0]) {
            m[qs[0]].value.deep_view()
        } else {
            Seq::empty()
        }) + spec_cached_answers(m, qs.drop_first())
    }
}

/// Every slot of a table without repeated keys is found in its map, with
/// its own entry.
proof fn lemma_slots_map_index(s: Seq<CacheSlot>, i: int)
    requires
        forall|a: int, b: int| 0 <= a < b < s.len() ==> s[a].key@ != s[b].key@,
        0 <= i < s.len(),
    ensures
        slots_map(s).contains_key(s[i].key@),
        slots_map(s)[s[i].key@] == s[i].entry,
    decreases s.len(),
{
    if i < s.len() - 1 {
        let d = s.drop_last();
        assert forall|a: int, b: int| 0 <= a < b < d.len() implies d[a].key@ != d[b].key@ by {
            assert(d[a] == s[a]);
            assert(d[b] == s[b]);
        }
        lemma_slots_map_index(d, i);
        assert(d[i] == s[i]);
        assert(s[i].key@ != s.last().key@);
    }
}

/// A key no slot carries is not in the map.
proof fn lemma_slots_map_absent(s: Seq<CacheSlot>, k: QuestionView)
    requires
        forall|j: int| 0 <= j < s.len() ==> s[j].key@ != k,
    ensures
        !slots_map(s).contains_key(k),
    decreases s.len(),
{
    if s.len() > 0 {
        let d = s.drop_last();
        assert forall|j: int| 0 <= j < d.len() implies d[j].key@ != k by {
            assert(d[j] == s[j]);
        }
        lemma_slots_map_absent(d, k);
    }
}

/// Replacing the slot of a key with a new entry updates the map at that
/// key and nowhere else.
proof fn lemma_slots_map_update(s: Seq<CacheSlot>, i: int, slot: CacheSlot)
    requires
        forall|a: int, b: int| 0 <= a < b < s.len() ==> s[a].key@ != s[b].key@,
        0 <= i < s.len(),
        slot.key@ == s[i].key@,
    ensures
        slots_map(s.update(i, slot)) == slots_map(s).insert(slot.key@, slot.entry),
    decreases s.len(),
{
    let s2 = s.update(i, slot);
    if i == s.len() - 1 {
        assert(s2.drop_last() =~= s.drop_last());
        assert(s2.last() == slot);
        assert(slots_map(s.drop_last()).insert(s.last().key@, s.last().entry).insert(
            slot.key@,
            slot.entry,
        ) =~= slots_map(s.drop_last()).insert(slot.key@, slot.entry));
    } else {
        let d = s.drop_last();
        assert forall|a: int, b: int| 0 <= a < b < d.len() implies d[a].key@ != d[b].key@ by {
            assert(d[a] == s[a]);
            assert(d[b] == s[b]);
        }
        assert(d[i] == s[i]);
        lemma_slots_map_update(d, i, slot);
        assert(s2.drop_last() =~= d.update(i, slot));
        assert(s2.last() == s.last());
        assert(s[i].key@ != s.last().key@);
        assert(slots_map(d).insert(slot.key@, slot.entry).insert(s.last().key@, s.last().entry)
            =~= slots_map(d).insert(s.last().key@, s.last().entry).insert(
            slot.key@,
            slot.entry,
        ));
    }
}

/// Compares two questions by name, type and class.
fn question_eq(a: &DnsQuestionSection, b: &DnsQuestionSection) -> (r: bool)
    ensures
        r == (a@ == b@),
{
    if a.qtype != b.qtype || a.qclass != b.qclass {
        return false;
    }
    if a.qname.len() != b.qname.len() {
        return false;
    }
    let n = a.qname.len();
    let mut i: usize = 0;
    while i < n
        invariant
            i <= n,
            n == a.qname@.len(),
            n == b.qname@.len(),
            forall|j: int| 0 <= j < i ==> a.qname@[j] == b.qname@[j],
        decreases n - i,
    {
        if a.qname[i] != b.qname[i] {
            return false;
        }
        i = i + 1;
    }
    proof {
        assert(a.qname@ =~= b.qname@);
    }
    true
}

/// A non-empty request's served answers are those of its front questions
/// followed by those of its last question.
proof fn lemma_cached_answers_snoc(m: Map<QuestionView, DnsCacheEntry>, qs: Seq<QuestionView>)
    requires
        qs.len() > 0,
    ensures
        spec_cached_answers(m, qs) == spec_cached_answers(m, qs.drop_last()) + (
        if m.contains_key(qs.last()) {
            m[qs.last()].value.deep_view()
        } else {
            Seq::empty()
        }),
    decreases qs.len(),
{
    if qs.len() == 1 {
        assert(qs.drop_last() =~= Seq::<QuestionView>::empty());
        assert(qs.drop_first() =~= Seq::<QuestionView>::empty());
        assert(qs[0] == qs.last());
        assert(spec_cached_answers(m, qs) =~= spec_cached_answers(m, qs.drop_last()) + (
        if m.contains_key(qs.last()) {
            m[qs.last()].value.deep_view()
        } else {
            Seq::empty()
        }));
    } else {
        lemma_cached_answers_snoc(m, qs.drop_first());
        assert(qs.drop_first().drop_last() =~= qs.drop_last().drop_first());
        assert(qs.drop_first().last() == qs.last());
        assert(qs.drop_last()[0] == qs[0]);
        assert(spec_cached_answers(m, qs) =~= spec_cached_answers(m, qs.drop_last()) + (
        if m.contains_key(qs.last()) {
            m[qs.last()].value.deep_view()
        } else {
            Seq::empty()
        }));
    }
}

/// Minimum TTL across a non-empty answer list.
fn min_ttl_of(ans: &Vec<DnsAnswerSection>) -> (r: u32)
    requires
        ans@.len() > 0,
    ensures
        r == spec_min_ttl(ans.deep_view()),
{
    let ghost dv = ans.deep_view();
    let mut m = ans[0].ttl;
    let mut i: usize = 1;
    while i < ans.len()
        invariant
            1 <= i <= dv.len(),
            dv == ans.deep_view(),
            m == spec_min_ttl_upto(dv, i as int),
        decreases dv.len() - i,
    {
        if ans[i].ttl < m {
            m = ans[i].ttl;
        }
        i = i + 1;
    }
    m
}

impl DnsCache {
    /// Finds the slot caching `q`, if any.
    fn find_index(&self, q: &DnsQuestionSection) -> (r: Option<usize>)
        ensures
            match r {
                Some(i) => i < self.slots().len() && self.slots()[i as int].key@ == q@,
                None => forall|j: int| 0 <= j < self.slots().len() ==> self.slots()[j].key@ != q@,
            },
    {
        let n = self.entries.len();
        let mut i: usize = 0;
        while i < n
            invariant
                i <= n,
                n == self.entries@.len(),
                forall|j: int| 0 <= j < i ==> self.entries@[j].key@ != q@,
            decreases n - i,
        {
            if question_eq(&self.entries[i].key, q) {
                return Some(i);
            }
            i = i + 1;
        }
        None
    }

    /// Looks a whole request up. A hit returns the concatenated answers of
    /// every question, in question order; if any question is absent or its
    /// entry has expired — or the union of answers is empty — the whole
    /// request is a miss and the caller falls through to the upstream.
    pub fn query(&self, request: &DnsPacket, now: u64) -> (r: Option<Vec<DnsAnswerSection>>)
        requires
            self.wf(),
        ensures
            (r is Some) == (self.spec_all_hit(request@.questions, now) && spec_cached_answers(
                self.as_map(),
                request@.questions,
            ).len() > 0),
            r matches Some(v) ==> v.deep_view() == spec_cached_answers(
                self.as_map(),
                request@.questions,
            ),
    {
        let ghost qs = request@.questions;
        let ghost m = self.as_map();
        let mut answers: Vec<DnsAnswerSection> = Vec::new();
        let n = request.question_section.len();
        let mut i: usize = 0;
        proof {
            assert(qs.take(0) =~= Seq::<QuestionView>::empty());
        }
        while i < n
            invariant
                self.wf(),
                i <= n,
                n == request.question_section@.len(),
                qs == request@.questions,
                m == self.as_map(),
                forall|j: int| 0 <= j < i ==> self.spec_question_hit(qs[j], now),
                answers.deep_view() == spec_cached_answers(m, qs.take(i as int)),
            decreases n - i,
        {
            let q = &request.question_section[i];
            proof {
                assert(qs[i as int] == q@);
            }
            match self.find_index(q) {
                None => {
                    proof {
                        lemma_slots_map_absent(self.slots(), q@);
                    }
                    return None;
                },
                Some(idx) => {
                    proof {
                        lemma_slots_map_index(self.slots(), idx as int);
                    }
                    if self.entries[idx].entry.expiry.is_expired(now) {
                        return None;
                    }
                    let ghost pre = answers.deep_view();
                    let mut extra = crate::dns::clone_answers(&self.entries[idx].entry.value);
                    answers.append(&mut extra);
                    proof {
                        assert(answers.deep_view() =~= pre + self.entries@[
                            idx as int
                        ].entry.value.deep_view());
                        lemma_cached_answers_snoc(m, qs.take(i as int + 1));
                        assert(qs.take(i as int + 1).drop_last() =~= qs.take(i as int));
                        assert(qs.take(i as int + 1).last() == qs[i as int]);
                    }
                    i = i + 1;
                },
            }
        }
        proof {
            assert(qs.take(n as int) =~= qs);
        }
        if answers.is_empty() {
            return None;
        }
        Some(answers)
    }

    /// Caches a response under its first question. A response without
    /// answers — or without a question to key it by — changes nothing.
    /// Otherwise the key's entry is replaced by the response's answers,
    /// stamped with `now` and the minimum TTL across those answers, and a
    /// matching entry is appended to the expiry index; any older index
    /// entry for the key goes stale and stays.
    pub fn update(&mut self, response: DnsPacket, now: u64)
        requires
            old(self).wf(),
        ensures
            final(self).wf(),
            (response.question_section@.len() == 0 || response.answer_section@.len() == 0) ==> (
            final(self).as_map() == old(self).as_map() && final(self).heap_entries() == old(
                self).heap_entries()),
            (response.question_section@.len() > 0 && response.answer_section@.len() > 0) ==> ({
                let k = response.question_section@[0]@;
                let exp = CacheExpiry {
                    insert_time: now,
                    ttl: spec_min_ttl(response.answer_section.deep_view()) as u64,
                };
                &&& final(self).as_map() == old(self).as_map().insert(
                    k,
                    DnsCacheEntry { value: response.answer_section, expiry: exp },
                )
                &&& final(self).heap_entries().len() == old(self).heap_entries().len() + 1
                &&& final(self).heap_entries().drop_last() == old(self).heap_entries()
                &&& final(self).heap_entries().last().question@ == k
                &&& final(self).heap_entries().last().expiry == exp
            }),
    {
        if response.answer_section.len() == 0 {
            return;
        }
        if response.question_section.len() == 0 {
            return;
        }
        let min_ttl = min_ttl_of(&response.answer_section);
        let expiry = CacheExpiry { insert_time: now, ttl: min_ttl as u64 };
        let heap_key = response.question_section[0].clone();
        let slot_key = response.question_section[0].clone();
        let idx_opt = self.find_index(&response.question_section[0]);
        let ghost k = response.question_section@[0]@;
        let entry = DnsCacheEntry { value: response.answer_section, expiry };
        let slot = CacheSlot { key: slot_key, entry };
        match idx_opt {
            Some(i) => {
                proof {
                    lemma_slots_map_update(self.slots(), i as int, slot);
                }
                let ghost pre = self.entries@;
                self.entries.set(i, slot);
                proof {
                    assert forall|a: int, b: int|
                        0 <= a < b < self.entries@.len() implies self.entries@[a].key@
                        != self.entries@[b].key@ by {
                        assert(self.entries@[a].key@ == pre[a].key@);
                        assert(self.entries@[b].key@ == pre[b].key@);
                    }
                }
            },
            None => {
                proof {
                    lemma_slots_map_absent(self.slots(), k);
                }
                let ghost pre = self.entries@;
                self.entries.push(slot);
                proof {
                    assert(self.entries@.drop_last() =~= pre);
                    assert forall|a: int, b: int|
                        0 <= a < b < self.entries@.len() implies self.entries@[a].key@
                        != self.entries@[b].key@ by {
                        if b < pre.len() {
                            assert(self.entries@[a] == pre[a]);
                            assert(self.entries@[b] == pre[b]);
                        } else {
                            assert(self.entries@[a] == pre[a]);
                            assert(self.entries@[b].key@ == k);
                        }
                    }
                }
            },
        }
        let ghost hpre = self.expiry_heap@;
        self.expiry_heap.push(DnsHeapEntry { question: heap_key, expiry });
        proof {
            assert(self.expiry_heap@.drop_last() =~= hpre);
        }
    }

    /// Drains the expiry index. If its earliest entry is due at `now`, that
    /// entry is removed and its question returned for refreshing; if it is
    /// not yet due, its expiry instant comes back as the wake-up time; and
    /// an empty index asks to be checked again one idle interval from now.
    /// The keyed table is never touched.
    pub fn pop_next_expired(&mut self, now: u64) -> (r: Result<DnsQuestionSection, u64>)
        ensures
            final(self).slots() == old(self).slots(),
            old(self).heap_entries().len() == 0 ==> (r == Err::<DnsQuestionSection, u64>(
                spec_sat_add(now, PREFETCH_SLEEP_TIME),
            ) && final(self).heap_entries() == old(self).heap_entries()),
            old(self).heap_entries().len() > 0 ==> ({
                let i = min_exp_idx(old(self).heap_entries());
                let e = old(self).heap_entries()[i].expiry.spec_expiry_time();
                &&& now <= e ==> (r == Err::<DnsQuestionSection, u64>(e) && final(
                    self).heap_entries() == old(self).heap_entries())
                &&& now > e ==> (r matches Ok(q) && q@ == old(self).heap_entries()[i].question@
                    && final(self).heap_entries() == old(self).heap_entries().remove(i))
            }),
    {
        let n = self.expiry_heap.len();
        if n == 0 {
            return Err(sat_add(now, PREFETCH_SLEEP_TIME));
        }
        let mut best: usize = 0;
        let mut i: usize = 1;
        while i < n
            invariant
                1 <= i <= n,
                n == self.expiry_heap@.len(),
                best < i,
                best as int == min_exp_upto(self.expiry_heap@, i as int),
                *self == *old(self),
            decreases n - i,
        {
            if self.expiry_heap[i].expiry.expiry_time() < self.expiry_heap[best].expiry.expiry_time() {
                best = i;
            }
            i = i + 1;
        }
        let due = self.expiry_heap[best].expiry.expiry_time();
        if now > due {
            let taken = self.expiry_heap.remove(best);
            Ok(taken.question)
        } else {
            Err(due)
        }
    }
}

/// Builds the reply to a served request: the request itself with the given
/// answer records appended and the answer count raised accordingly.
pub fn build_dns_response(request: &DnsPacket, answers: Vec<DnsAnswerSection>) -> (r: DnsPacket)
    requires
        request.header.ancount + answers@.len() <= 0xFFFF,
    ensures
        r.header == (crate::dns::DnsHeader {
            ancount: (request.header.ancount + answers@.len()) as u16,
            ..request.header
        }),
        r@.questions == request@.questions,
        r.answer_section.deep_view() == request.answer_section.deep_view() + answers.deep_view(),
        r@.authorities == request@.authorities,
        r@.additionals == request@.additionals,
{
    let mut response = request.clone();
    response.add_to_answer_section(answers.as_slice());
    response
}

/// Law: one missing or expired question makes the whole request a miss,
/// however many of its other questions are cached.
pub proof fn lemma_hit_needs_every_question(
    cache: DnsCache,
    qs: Seq<QuestionView>,
    now: u64,
    i: int,
)
    requires
        0 <= i < qs.len(),
        !cache.spec_question_hit(qs[i], now),
    ensures
        !cache.spec_all_hit(qs, now),
{
}

/// Law: a cached entry whose minimum TTL was at least the grace period is
/// served until TTL minus grace seconds after its insertion, and not
/// after; the window closes exactly at the expiry instant.
pub proof fn lemma_fresh_entry_window(cache: DnsCache, k: QuestionView, now: u64)
    requires
        cache.as_map().contains_key(k),
        cache.as_map()[k].expiry.ttl >= TTL_GRACE_PERIOD,
    ensures
        cache.spec_question_hit(k, now) <==> now <= spec_sat_add(
            cache.as_map()[k].expiry.insert_time,
            (cache.as_map()[k].expiry.ttl - TTL_GRACE_PERIOD) as u64,
        ),
{
}

} // verus!
