//! Planning a fetch from the mailbox server and gathering what it streams.

use vstd::prelude::*;
use crate::clock::{SyncTime, imap_date, imap_date_of};
use crate::mime::{
    MimePart, NO_SUBJECT, UNKNOWN_DATE, UNKNOWN_SENDER, all_header_values, body_and_attachments,
    extract_body_and_attachments, field_lookup, first_field_value, header_values, mime_tree_of,
    parse_message,
};
use crate::model::{Email, EmailModel, EmailStatus, StatusModel, strings_view};
use crate::order::{insert_by_date, newest_first};
use crate::text::{contains_text, decimal_string, decimal_text, opt_text, push_char};

verus! {

broadcast use vstd::seq_lib::group_to_multiset_ensures;
/// The most messages one fetch asks the server for.
pub const FETCH_WINDOW: usize = 30;

/// The mailbox that is synchronised.
pub const INBOX: &'static str = "INBOX";

/// The search that a fetch starts with: every message, or those since the
/// day of the last synchronisation.
pub open spec fn search_text(since: Option<SyncTime>) -> Seq<char> {
    match since {
        Some(t) => match imap_date_of(t.secs as int) {
            Some(d) => "SINCE "@ + d,
            None => "ALL"@,
        },
        None => "ALL"@,
    }
}

/// The search command for a fetch since `since`; a date beyond chrono's
/// range searches everything.
pub fn search_command(since: &Option<SyncTime>) -> (r: String)
    ensures
        r@ == search_text(*since),
{
    match since {
        Some(t) => match imap_date(t.secs) {
            Some(d) => String::from_str("SINCE ").concat(d.as_str()),
            None => String::from_str("ALL"),
        },
        None => String::from_str("ALL"),
    }
}

/// Strictly increasing.
pub open spec fn increasing(w: Seq<u32>) -> bool {
    forall|i: int, j: int| 0 <= i < j < w.len() ==> w[i] < w[j]
}

/// `w` is the fetch window of the ids `ids`: the most recent (highest) of
/// them, at most `FETCH_WINDOW` and all of them when they are fewer, in
/// increasing order.
pub open spec fn is_window(ids: Seq<u32>, w: Seq<u32>) -> bool {
    &&& increasing(w)
    &&& w.len() <= FETCH_WINDOW
    &&& forall|k: int| 0 <= k < w.len() ==> ids.contains(#[trigger] w[k])
    &&& forall|x: u32| #[trigger] ids.contains(x) && !w.contains(x) ==> w.len() == FETCH_WINDOW && x < w[0]
}

/// The fetch window of a search result: its distinct ids in increasing
/// order, cut to the `FETCH_WINDOW` highest.
pub fn select_window(ids: &Vec<u32>) -> (r: Vec<u32>)
    ensures
        is_window(ids@, r@),
{
    let mut sorted: Vec<u32> = Vec::new();
    let mut i: usize = 0;
    while i < ids.len()
        invariant
            i <= ids.len(),
            increasing(sorted@),
            forall|x: u32| sorted@.contains(x) <==> ids@.subrange(0, i as int).contains(x),
        decreases ids.len() - i,
    {
        let x = ids[i];
        let mut pos: usize = 0;
        while pos < sorted.len() && sorted[pos] < x
            invariant
                pos <= sorted@.len(),
                forall|k: int| 0 <= k < pos ==> #[trigger] sorted@[k] < x,
            decreases sorted@.len() - pos,
        {
            pos = pos + 1;
        }
        proof {
            assert(ids@.subrange(0, i + 1) =~= ids@.subrange(0, i as int).push(x));
        }
        if pos < sorted.len() && sorted[pos] == x {
            assert forall|y: u32| sorted@.contains(y) <==> ids@.subrange(0, i + 1).contains(y) by {
                if ids@.subrange(0, i + 1).contains(y) && y != x {
                    let k = choose|k: int| 0 <= k < i + 1 && #[trigger] ids@.subrange(0, i + 1)[k] == y;
                    assert(ids@.subrange(0, i as int)[k] == y);
                }
            }
        } else {
            let ghost old_sorted = sorted@;
            sorted.insert(pos, x);
            assert(sorted@ == old_sorted.insert(pos as int, x));
            assert forall|a: int, b: int| 0 <= a < b < sorted@.len() implies sorted@[a] < sorted@[b] by {
                if b == pos as int {
                } else if a == pos as int {
                    assert(sorted@[b] == old_sorted[b - 1]);
                    assert(old_sorted[pos as int] >= x);
                    if b - 1 > pos as int {
                        assert(old_sorted[pos as int] < old_sorted[b - 1]);
                    }
                } else if b < pos as int {
                } else if a < pos as int {
                    assert(sorted@[b] == old_sorted[b - 1]);
                } else {
                    assert(sorted@[b] == old_sorted[b - 1]);
                    assert(sorted@[a] == old_sorted[a - 1]);
                }
            }
            assert forall|y: u32| sorted@.contains(y) <==> ids@.subrange(0, i + 1).contains(y) by {
                lemma_push_contains(ids@.subrange(0, i as int), x, y);
                if sorted@.contains(y) {
                    let k = choose|k: int| 0 <= k < sorted@.len() && #[trigger] sorted@[k] == y;
                    if k < pos {
                        assert(old_sorted[k] == y);
                        assert(old_sorted.contains(y));
                    } else if k > pos {
                        assert(old_sorted[k - 1] == y);
                        assert(old_sorted.contains(y));
                    }
                }
                if ids@.subrange(0, i + 1).contains(y) {
                    if y == x {
                        assert(sorted@[pos as int] == x);
                    } else {
                        assert(old_sorted.contains(y));
                        let m = choose|m: int| 0 <= m < old_sorted.len() && #[trigger] old_sorted[m] == y;
                        if m < pos {
                            assert(sorted@[m] == y);
                        } else {
                            assert(sorted@[m + 1] == y);
                        }
                    }
                }
            }
        }
        i = i + 1;
    }
    assert(ids@.subrange(0, ids@.len() as int) =~= ids@);
    let start: usize = if sorted.len() > FETCH_WINDOW { sorted.len() - FETCH_WINDOW } else { 0 };
    let mut r: Vec<u32> = Vec::new();
    let mut k: usize = start;
    while k < sorted.len()
        invariant
            start <= k <= sorted@.len(),
            r@ == sorted@.subrange(start as int, k as int),
        decreases sorted@.len() - k,
    {
        r.push(sorted[k]);
        assert(sorted@.subrange(start as int, k + 1) =~= sorted@.subrange(start as int, k as int).push(sorted@[k as int]));
        k = k + 1;
    }
    proof {
        assert forall|k2: int| 0 <= k2 < r@.len() implies ids@.contains(#[trigger] r@[k2]) by {
            assert(r@[k2] == sorted@[start + k2]);
            assert(sorted@.contains(sorted@[start + k2]));
        }
        assert forall|x: u32| #[trigger] ids@.contains(x) && !r@.contains(x) implies r@.len() == FETCH_WINDOW && x < r@[0] by {
            assert(sorted@.contains(x));
            let m = choose|m: int| 0 <= m < sorted@.len() && #[trigger] sorted@[m] == x;
            if m >= start {
                assert(r@[m - start] == x);
            } else {
                assert(sorted@[start as int] == r@[0]);
            }
        }
    }
    r
}

proof fn lemma_push_contains(s: Seq<u32>, x: u32, y: u32)
    ensures
        s.push(x).contains(y) <==> (s.contains(y) || y == x),
{
    if s.contains(y) {
        let k = choose|k: int| 0 <= k < s.len() && #[trigger] s[k] == y;
        assert(s.push(x)[k] == y);
    }
    if y == x {
        assert(s.push(x)[s.len() as int] == y);
    }
    if s.push(x).contains(y) && y != x {
        let k = choose|k: int| 0 <= k < s.len() + 1 && #[trigger] s.push(x)[k] == y;
        assert(s[k] == y);
    }
}

/// In an increasing list each value is at least the first plus its index.
proof fn lemma_increasing_gap(w: Seq<u32>, k: int)
    requires
        increasing(w),
        0 <= k < w.len(),
    ensures
        w[k] as int >= w[0] as int + k,
    decreases k,
{
    if k > 0 {
        lemma_increasing_gap(w, k - 1);
    }
}

/// Value `u` occurs in `w`.
pub open spec fn occurs(w: Seq<u32>, u: int) -> bool {
    exists|b: int| 0 <= b < w.len() && #[trigger] w[b] as int == u
}

/// When every value from `lo` to `v` occurs in an increasing list, value `v`
/// stands at least `v - lo` places after value `lo`.
proof fn lemma_index_lower(w: Seq<u32>, lo: int, a0: int, v: int, a: int)
    requires
        increasing(w),
        0 <= a0 < w.len(),
        w[a0] as int == lo,
        0 <= a < w.len(),
        w[a] as int == v,
        lo <= v,
        forall|u: int| lo <= u <= v ==> #[trigger] occurs(w, u),
    ensures
        a >= a0 + (v - lo),
    decreases v - lo,
{
    if v == lo {
        if a < a0 {
            assert(w[a] < w[a0]);
        } else if a > a0 {
            assert(w[a0] < w[a]);
        }
    } else {
        assert(occurs(w, v - 1));
        let b = choose|b: int| 0 <= b < w.len() && #[trigger] w[b] as int == v - 1;
        lemma_index_lower(w, lo, a0, v - 1, b);
        if a <= b {
            if a < b {
                assert(w[a] < w[b]);
            }
        }
    }
}

/// When a search finds exactly the ids `1` to `n`, with `n` at least the
/// window size, the fetch window is the most recent ones: `n - 29` to `n`.
pub proof fn lemma_window_of_first_ids(ids: Seq<u32>, w: Seq<u32>, n: u32)
    requires
        n >= FETCH_WINDOW,
        forall|x: u32| ids.contains(x) <==> 1 <= x <= n,
        is_window(ids, w),
    ensures
        w.len() == FETCH_WINDOW,
        forall|k: int| 0 <= k < FETCH_WINDOW ==> w[k] as int == n - 29 + k,
{
    assert(ids.contains(n));
    if w.len() < FETCH_WINDOW {
        assert forall|u: int| 1 <= u <= n implies #[trigger] occurs(w, u) by {
            assert(ids.contains(u as u32));
            assert(w.contains(u as u32));
        }
        assert(w.contains(n));
        let a = choose|a: int| 0 <= a < w.len() && w[a] == n;
        assert(occurs(w, 1));
        let a1 = choose|b: int| 0 <= b < w.len() && #[trigger] w[b] as int == 1;
        lemma_index_lower(w, 1, a1, n as int, a);
        assert(false);
    }
    assert forall|v: int| n - 29 <= v <= n implies #[trigger] occurs(w, v) by {
        assert(ids.contains(v as u32));
        if !w.contains(v as u32) {
            lemma_increasing_gap(w, 29);
            assert(ids.contains(w[29]));
        }
        assert(w.contains(v as u32));
    }
    let lo = n - 29;
    assert(occurs(w, lo as int));
    assert(occurs(w, n as int));
    let a0 = choose|b: int| 0 <= b < w.len() && #[trigger] w[b] as int == lo;
    let an = choose|b: int| 0 <= b < w.len() && #[trigger] w[b] as int == n as int;
    assert forall|k: int| 0 <= k < FETCH_WINDOW implies w[k] as int == n - 29 + k by {
        let v = n - 29 + k;
        assert(occurs(w, v));
        let a = choose|b: int| 0 <= b < w.len() && #[trigger] w[b] as int == v;
        lemma_index_lower(w, lo as int, a0, v, a);
        lemma_index_lower(w, v, a, n as int, an);
        assert(a == k);
    }
}

/// Decimal ids separated by commas: an IMAP sequence set.
pub open spec fn sequence_set_text(w: Seq<u32>) -> Seq<char>
    decreases w.len(),
{
    if w.len() == 0 {
        Seq::empty()
    } else if w.len() == 1 {
        decimal_text(w[0] as nat)
    } else {
        sequence_set_text(w.drop_last()).push(',') + decimal_text(w.last() as nat)
    }
}

/// The IMAP sequence set that names exactly the ids of `w`.
pub fn sequence_set(w: &Vec<u32>) -> (r: String)
    ensures
        r@ == sequence_set_text(w@),
{
    let mut r = String::new();
    let mut i: usize = 0;
    while i < w.len()
        invariant
            i <= w.len(),
            r@ == sequence_set_text(w@.subrange(0, i as int)),
        decreases w.len() - i,
    {
        assert(w@.subrange(0, i + 1).drop_last() =~= w@.subrange(0, i as int));
        if i > 0 {
            push_char(&mut r, ',');
        }
        let d = decimal_string(w[i]);
        r.append(d.as_str());
        i = i + 1;
    }
    assert(w@.subrange(0, w@.len() as int) =~= w@);
    r
}

/// What to fetch after a search: nothing when it found no message, else the
/// sequence set of its window.
pub fn plan_fetch(ids: &Vec<u32>) -> (r: Option<String>)
    ensures
        ids@.len() == 0 ==> r is None,
        ids@.len() > 0 ==> exists|w: Seq<u32>| is_window(ids@, w) && opt_text(r) == Some(sequence_set_text(w)),
{
    if ids.len() == 0 {
        return None;
    }
    let w = select_window(ids);
    Some(sequence_set(&w))
}

/// The ids of a list whose decimal text is not excluded, in order.
pub open spec fn unstored(ids: Seq<u32>, exclude: Seq<Seq<char>>) -> Seq<u32>
    decreases ids.len(),
{
    if ids.len() == 0 {
        Seq::empty()
    } else {
        let init = unstored(ids.drop_last(), exclude);
        if exclude.contains(decimal_text(ids.last() as nat)) {
            init
        } else {
            init.push(ids.last())
        }
    }
}

/// What to fetch after a search when the ids of `exclude` are stored
/// already: the window of the search result, less the stored ids, so that
/// only the most recent messages are fetched and no stored id is asked for
/// again; nothing when no id is left.
pub fn plan_fetch_excluding(ids: &Vec<u32>, exclude: &Vec<String>) -> (r: Option<String>)
    ensures
        exists|w: Seq<u32>| {
            &&& is_window(ids@, w)
            &&& unstored(w, strings_view(exclude@)).len() == 0 ==> r is None
            &&& unstored(w, strings_view(exclude@)).len() > 0 ==> opt_text(r) == Some(
                sequence_set_text(unstored(w, strings_view(exclude@))),
            )
        },
{
    let w = select_window(ids);
    let mut left: Vec<u32> = Vec::new();
    let mut i: usize = 0;
    while i < w.len()
        invariant
            i <= w@.len(),
            left@ == unstored(w@.subrange(0, i as int), strings_view(exclude@)),
        decreases w@.len() - i,
    {
        assert(w@.subrange(0, i + 1).drop_last() =~= w@.subrange(0, i as int));
        let id = decimal_string(w[i]);
        if !contains_text(exclude, id.as_str()) {
            left.push(w[i]);
        }
        i = i + 1;
    }
    assert(w@.subrange(0, w@.len() as int) =~= w@);
    if left.len() == 0 {
        None
    } else {
        Some(sequence_set(&left))
    }
}

/// A header value, or a fallback when the header is absent.
pub open spec fn or_text(o: Option<Seq<char>>, fallback: Seq<char>) -> Seq<char> {
    match o {
        Some(v) => v,
        None => fallback,
    }
}

/// The message with sequence number `seq` and decoded tree `m`: `From`,
/// `Subject` and `Date` from the first such header, with fallbacks; `To` and
/// `Cc` from every such header; body and attachments as the MIME walk
/// selects them.
pub open spec fn message_model(seq: nat, m: MimePart) -> EmailModel {
    EmailModel {
        id: decimal_text(seq),
        from: or_text(field_lookup(m.headers@, "From"@, true), UNKNOWN_SENDER@),
        to: header_values(m.headers@, "To"@),
        cc: header_values(m.headers@, "Cc"@),
        bcc: Seq::empty(),
        subject: or_text(field_lookup(m.headers@, "Subject"@, true), NO_SUBJECT@),
        date: or_text(field_lookup(m.headers@, "Date"@, true), UNKNOWN_DATE@),
        body: body_and_attachments(m).0,
        attachments: body_and_attachments(m).1,
        status: StatusModel::Draft,
    }
}

/// The first value of a header, or a fallback.
fn header_or(m: &MimePart, key: &str, fallback: &str) -> (r: String)
    ensures
        r@ == or_text(field_lookup(m.headers@, key@, true), fallback@),
{
    match first_field_value(&m.headers, key, true) {
        Some(v) => v,
        None => String::from_str(fallback),
    }
}

/// Builds the message with sequence number `seq` from its decoded tree.
pub fn email_from_message(seq: u32, m: &MimePart) -> (r: Email)
    ensures
        r@ == message_model(seq as nat, *m),
{
    let (body, attachments) = extract_body_and_attachments(m);
    let r = Email {
        id: decimal_string(seq),
        from: header_or(m, "From", UNKNOWN_SENDER),
        to: all_header_values(&m.headers, "To"),
        cc: all_header_values(&m.headers, "Cc"),
        bcc: Vec::new(),
        subject: header_or(m, "Subject", NO_SUBJECT),
        date: header_or(m, "Date", UNKNOWN_DATE),
        body,
        attachments,
        status: EmailStatus::Draft,
    };
    assert(strings_view(r.bcc@) =~= Seq::<Seq<char>>::empty());
    r
}

/// Decodes the raw message with sequence number `seq`; `None` when it
/// cannot be decoded.
pub fn parse_email(seq: u32, raw: &[u8]) -> (r: Option<Email>)
    ensures
        match mime_tree_of(raw@) {
            Some(m) => r is Some && r->0@ == message_model(seq as nat, m),
            None => r is None,
        },
{
    match parse_message(raw) {
        Some(m) => Some(email_from_message(seq, &m)),
        None => None,
    }
}

/// What became of one fetched message.
#[derive(Clone, Copy, Debug, PartialEq, Eq)]
pub enum FetchOutcome {
    /// Decoded and kept.
    Added,
    /// Its id is already stored locally.
    Excluded,
    /// A message with its id was already gathered in this fetch.
    Duplicate,
    /// It could not be decoded; it is skipped and the batch goes on.
    Unparsable,
}

/// No two messages share an id.
pub open spec fn distinct_ids(v: Seq<Email>) -> bool {
    forall|i: int, j: int| 0 <= i < j < v.len() ==> #[trigger] v[i].id@ != #[trigger] v[j].id@
}

/// Some message has id `id`.
pub open spec fn has_id(v: Seq<Email>, id: Seq<char>) -> bool {
    exists|k: int| 0 <= k < v.len() && #[trigger] v[k].id@ == id
}

/// The messages of one fetch, gathered as the server streams them and kept
/// newest first, less those whose id is excluded or already gathered.
pub struct FetchBatch {
    pub exclude: Vec<String>,
    pub emails: Vec<Email>,
}

impl FetchBatch {
    /// The gathered messages are newest first, have distinct ids, and none
    /// has an excluded id.
    pub open spec fn wf(&self) -> bool {
        &&& newest_first(self.emails@)
        &&& distinct_ids(self.emails@)
        &&& forall|k: int| 0 <= k < self.emails@.len() ==> !strings_view(self.exclude@).contains(
            #[trigger] self.emails@[k].id@,
        )
    }

    /// An empty batch that will leave out the ids of `exclude`.
    pub fn new(exclude: Vec<String>) -> (r: FetchBatch)
        ensures
            r.wf(),
            r.exclude == exclude,
            r.emails@.len() == 0,
    {
        FetchBatch { exclude, emails: Vec::new() }
    }

    /// Whether a message with id `id` was gathered.
    fn gathered(&self, id: &str) -> (r: bool)
        ensures
            r == has_id(self.emails@, id@),
    {
        let mut i: usize = 0;
        while i < self.emails.len()
            invariant
                i <= self.emails@.len(),
                forall|k: int| 0 <= k < i ==> #[trigger] self.emails@[k].id@ != id@,
            decreases self.emails@.len() - i,
        {
            if crate::text::text_equal(self.emails[i].id.as_str(), id) {
                return true;
            }
            i = i + 1;
        }
        false
    }

    /// Takes in the message with sequence number `seq` and raw bytes `raw`:
    /// skipped when its id is excluded or already gathered, or when it
    /// cannot be decoded; kept, in date order, otherwise.
    pub fn accept(&mut self, seq: u32, raw: &[u8]) -> (r: FetchOutcome)
        requires
            old(self).wf(),
        ensures
            final(self).wf(),
            final(self).exclude == old(self).exclude,
            strings_view(old(self).exclude@).contains(decimal_text(seq as nat)) ==> r == FetchOutcome::Excluded
                && final(self).emails@ == old(self).emails@,
            !strings_view(old(self).exclude@).contains(decimal_text(seq as nat)) && has_id(
                old(self).emails@,
                decimal_text(seq as nat),
            ) ==> r == FetchOutcome::Duplicate && final(self).emails@ == old(self).emails@,
            !strings_view(old(self).exclude@).contains(decimal_text(seq as nat)) && !has_id(
                old(self).emails@,
                decimal_text(seq as nat),
            ) && mime_tree_of(raw@) is None ==> r == FetchOutcome::Unparsable && final(self).emails@ == old(
                self,
            ).emails@,
            !strings_view(old(self).exclude@).contains(decimal_text(seq as nat)) && !has_id(
                old(self).emails@,
                decimal_text(seq as nat),
            ) && mime_tree_of(raw@) is Some ==> r == FetchOutcome::Added && exists|pos: int, e: Email|
                0 <= pos <= old(self).emails@.len() && final(self).emails@ == old(self).emails@.insert(pos, e)
                    && e@ == message_model(seq as nat, mime_tree_of(raw@)->0),
    {
        let id = decimal_string(seq);
        if contains_text(&self.exclude, id.as_str()) {
            return FetchOutcome::Excluded;
        }
        if self.gathered(id.as_str()) {
            return FetchOutcome::Duplicate;
        }
        match parse_email(seq, raw) {
            None => FetchOutcome::Unparsable,
            Some(e) => {
                let ghost before = self.emails@;
                let ghost model = e@;
                let ghost e_id = e.id@;
                assert(e_id == id@);
                insert_by_date(&mut self.emails, e);
                proof {
                    let pos = choose|pos: int| 0 <= pos <= before.len() && self.emails@ == before.insert(pos, e);
                    let v = self.emails@;
                    assert(v[pos].id@ == e_id);
                    assert forall|i: int, j: int| 0 <= i < j < v.len() implies #[trigger] v[i].id@ != #[trigger] v[j].id@ by {
                        if i == pos {
                            assert(v[j] == before[j - 1]);
                        } else if j == pos {
                            assert(v[i] == before[i]);
                        } else if i < pos && j < pos {
                        } else if i < pos {
                            assert(v[j] == before[j - 1]);
                        } else {
                            assert(v[i] == before[i - 1]);
                            assert(v[j] == before[j - 1]);
                        }
                    }
                    assert forall|k: int| 0 <= k < v.len() implies !strings_view(self.exclude@).contains(
                        #[trigger] v[k].id@,
                    ) by {
                        if k < pos {
                        } else if k > pos {
                            assert(v[k] == before[k - 1]);
                        }
                    }
                }
                FetchOutcome::Added
            },
        }
    }

    /// The gathered messages: newest first by date text, with distinct ids,
    /// none of them excluded.
    pub fn finish(self) -> (r: Vec<Email>)
        requires
            self.wf(),
        ensures
            r@ == self.emails@,
            newest_first(r@),
            distinct_ids(r@),
            forall|k: int| 0 <= k < r@.len() ==> !strings_view(self.exclude@).contains(#[trigger] r@[k].id@),
    {
        self.emails
    }
}

} // verus!
