//! The mail queue: who asked for their photos by mail, under which names the
//! photos are kept for them, and what is left to send.

use vstd::prelude::*;
use vstd::string::*;
use crate::text::{decimal, decimal_of};

verus! {

/// The position of the first `@` in `s`, or the length of `s` where it has
/// none.
pub open spec fn first_at(s: Seq<char>) -> int
    decreases s.len(),
{
    if s.len() == 0 || s[0] == '@' {
        0
    } else {
        1 + first_at(s.drop_first())
    }
}

/// The part of an address before its first `@`; the whole address where it
/// has none.
pub open spec fn prefix_of(address: Seq<char>) -> Seq<char> {
    address.take(first_at(address))
}

/// `first_at` finds the first `@`: no character before it is one, and it
/// stands at an `@` or at the end.
pub proof fn lemma_first_at(s: Seq<char>)
    ensures
        0 <= first_at(s) <= s.len(),
        forall|i: int| 0 <= i < first_at(s) ==> s[i] != '@',
        first_at(s) < s.len() ==> s[first_at(s)] == '@',
    decreases s.len(),
{
    if s.len() > 0 && s[0] != '@' {
        let rest = s.drop_first();
        lemma_first_at(rest);
        assert forall|i: int| 0 <= i < first_at(s) implies s[i] != '@' by {
            if i > 0 {
                assert(s[i] == rest[i - 1]);
            }
        }
        if first_at(s) < s.len() {
            assert(s[first_at(s)] == rest[first_at(rest)]);
        }
    }
}

/// Where no character before position `k` is an `@` and an `@` or the end
/// stands at `k`, `k` is the position that `first_at` finds.
pub proof fn lemma_first_at_is(s: Seq<char>, k: int)
    requires
        0 <= k <= s.len(),
        forall|i: int| 0 <= i < k ==> s[i] != '@',
        k < s.len() ==> s[k] == '@',
    ensures
        first_at(s) == k,
    decreases s.len(),
{
    if s.len() > 0 && s[0] != '@' {
        let rest = s.drop_first();
        assert forall|i: int| 0 <= i < k - 1 implies rest[i] != '@' by {
            assert(rest[i] == s[i + 1]);
        }
        if k < s.len() {
            assert(rest[k - 1] == s[k]);
        }
        lemma_first_at_is(rest, k - 1);
    }
}

/// The part of `address` before its first `@`.
pub fn email_prefix(address: &str) -> (out: String)
    ensures
        out@ == prefix_of(address@),
        out@.is_prefix_of(address@),
        !out@.contains('@'),
        out@.len() < address@.len() ==> address@[out@.len() as int] == '@',
{
    let n = address.unicode_len();
    let mut k: usize = 0;
    while k < n && address.get_char(k) != '@'
        invariant
            k <= n,
            n == address@.len(),
            forall|i: int| 0 <= i < k ==> address@[i] != '@',
        decreases n - k,
    {
        k = k + 1;
    }
    proof {
        lemma_first_at_is(address@, k as int);
        lemma_first_at(address@);
        assert(address@.subrange(0, k as int) =~= address@.take(k as int));
    }
    address.substring_char(0, k).to_owned()
}

/// The name under which photo number `index` (counted from 0) of the
/// address with the given prefix is kept: the prefix, `_photo_`, the
/// photo's number counted from 1, and `.png`.
pub open spec fn photo_name_of(prefix: Seq<char>, index: nat) -> Seq<char> {
    prefix + "_photo_"@ + decimal_of(index + 1) + ".png"@
}

/// The name under which photo number `index` (counted from 0) of the
/// address with the given prefix is kept.
pub fn photo_file_name(prefix: &str, index: usize) -> (out: String)
    ensures
        out@ == photo_name_of(prefix@, index as nat),
{
    let mut out = prefix.to_owned();
    out.append("_photo_");
    let number = decimal(index as u128 + 1);
    out.append(number.as_str());
    out.append(".png");
    out
}

/// The names under which the photos of `address` are kept, one for each of
/// `count` photos, in order.
pub fn photo_file_names(address: &str, count: usize) -> (out: Vec<String>)
    ensures
        out@.len() == count,
        forall|i: int|
            0 <= i < count ==> (#[trigger] out@[i])@ == photo_name_of(
                prefix_of(address@),
                i as nat,
            ),
{
    let prefix = email_prefix(address);
    let mut out: Vec<String> = Vec::new();
    let mut i: usize = 0;
    while i < count
        invariant
            i <= count,
            prefix@ == prefix_of(address@),
            out@.len() == i,
            forall|j: int|
                0 <= j < i ==> (#[trigger] out@[j])@ == photo_name_of(
                    prefix_of(address@),
                    j as nat,
                ),
        decreases count - i,
    {
        out.push(photo_file_name(prefix.as_str(), i));
        i = i + 1;
    }
    out
}

/// One entry of the mail queue: an address and the photos to send to it.
#[derive(Debug)]
pub struct EmailRecord {
    pub email: String,
    pub photos: Vec<String>,
}

/// The mathematical model of an entry of the mail queue.
pub struct Entry {
    pub email: Seq<char>,
    pub photos: Seq<Seq<char>>,
}

impl View for EmailRecord {
    type V = Entry;

    open spec fn view(&self) -> Entry {
        Entry {
            email: self.email@,
            photos: Seq::new(self.photos@.len(), |i: int| self.photos@[i]@),
        }
    }
}

/// The models of a list of entries.
pub open spec fn entries(records: Seq<EmailRecord>) -> Seq<Entry> {
    Seq::new(records.len(), |i: int| records[i]@)
}

/// Whether some entry of the queue is for `address`.
pub open spec fn stored(queue: Seq<Entry>, address: Seq<char>) -> bool {
    exists|i: int| 0 <= i < queue.len() && (#[trigger] queue[i]).email == address
}

/// Whether some entry of the queue is for `address`.
pub fn is_stored(queue: &Vec<EmailRecord>, address: &str) -> (out: bool)
    ensures
        out == stored(entries(queue@), address@),
{
    let wanted = address.to_owned();
    let mut i: usize = 0;
    while i < queue.len()
        invariant
            i <= queue@.len(),
            wanted@ == address@,
            forall|j: int| 0 <= j < i ==> (#[trigger] entries(queue@)[j]).email != address@,
        decreases queue@.len() - i,
    {
        if queue[i].email == wanted {
            assert(entries(queue@)[i as int].email == address@);
            return true;
        }
        i = i + 1;
    }
    false
}

/// Why an address was not added to the queue.
#[derive(Clone, Copy, Debug, PartialEq, Eq, Structural)]
pub enum MailError {
    /// The queue already holds an entry for the address.
    AlreadyStored,
}

/// Adds an entry for `address` at the end of the queue. An address that the
/// queue already holds is refused, and the queue stays as it was.
pub fn add_record(queue: &mut Vec<EmailRecord>, address: String, photos: Vec<String>) -> (out:
    Result<(), MailError>)
    ensures
        out is Err <==> stored(entries(old(queue)@), address@),
        out is Err ==> final(queue)@ == old(queue)@,
        out is Ok ==> final(queue)@ == old(queue)@.push(EmailRecord { email: address, photos }),
{
    if is_stored(queue, address.as_str()) {
        return Err(MailError::AlreadyStored);
    }
    queue.push(EmailRecord { email: address, photos });
    Ok(())
}

fn same_list(a: &Vec<String>, b: &Vec<String>) -> (out: bool)
    ensures
        out == (Seq::new(a@.len(), |i: int| a@[i]@) == Seq::new(b@.len(), |i: int| b@[i]@)),
{
    let ghost left = Seq::new(a@.len(), |i: int| a@[i]@);
    let ghost right = Seq::new(b@.len(), |i: int| b@[i]@);
    if a.len() != b.len() {
        assert(left.len() != right.len());
        return false;
    }
    let mut i: usize = 0;
    while i < a.len()
        invariant
            i <= a@.len(),
            a@.len() == b@.len(),
            left == Seq::new(a@.len(), |i: int| a@[i]@),
            right == Seq::new(b@.len(), |i: int| b@[i]@),
            forall|j: int| 0 <= j < i ==> left[j] == right[j],
        decreases a@.len() - i,
    {
        if a[i] != b[i] {
            assert(left[i as int] != right[i as int]);
            return false;
        }
        i = i + 1;
    }
    assert(left =~= right);
    true
}

/// Whether two entries name the same address and the same photos.
pub fn same_record(a: &EmailRecord, b: &EmailRecord) -> (out: bool)
    ensures
        out == (a@ == b@),
{
    a.email == b.email && same_list(&a.photos, &b.photos)
}

/// A copy of an entry.
pub fn copy_record(record: &EmailRecord) -> (out: EmailRecord)
    ensures
        out@ == record@,
{
    let mut photos: Vec<String> = Vec::new();
    let mut i: usize = 0;
    while i < record.photos.len()
        invariant
            i <= record.photos@.len(),
            photos@.len() == i,
            forall|j: int| 0 <= j < i ==> (#[trigger] photos@[j])@ == record.photos@[j]@,
        decreases record.photos@.len() - i,
    {
        photos.push(record.photos[i].clone());
        i = i + 1;
    }
    let out = EmailRecord { email: record.email.clone(), photos };
    assert(out@.photos =~= record@.photos);
    out
}

/// The entries of `queue` that are equal to no entry of `sent`, in order.
pub open spec fn kept(queue: Seq<Entry>, sent: Seq<Entry>) -> Seq<Entry>
    decreases queue.len(),
{
    if queue.len() == 0 {
        Seq::empty()
    } else if sent.contains(queue.last()) {
        kept(queue.drop_last(), sent)
    } else {
        kept(queue.drop_last(), sent).push(queue.last())
    }
}

/// Once every entry of the queue has been sent, nothing is kept.
pub proof fn lemma_all_sent(queue: Seq<Entry>, sent: Seq<Entry>)
    requires
        forall|i: int| 0 <= i < queue.len() ==> sent.contains(#[trigger] queue[i]),
    ensures
        kept(queue, sent) == Seq::<Entry>::empty(),
    decreases queue.len(),
{
    if queue.len() > 0 {
        assert(sent.contains(queue[queue.len() - 1]));
        assert forall|i: int| 0 <= i < queue.drop_last().len() implies sent.contains(
            #[trigger] queue.drop_last()[i],
        ) by {
            assert(queue.drop_last()[i] == queue[i]);
        }
        lemma_all_sent(queue.drop_last(), sent);
    }
}

fn holds_record(list: &Vec<EmailRecord>, record: &EmailRecord) -> (out: bool)
    ensures
        out == entries(list@).contains(record@),
{
    let ghost sent = entries(list@);
    let mut i: usize = 0;
    while i < list.len()
        invariant
            i <= list@.len(),
            sent == entries(list@),
            forall|j: int| 0 <= j < i ==> sent[j] != record@,
        decreases list@.len() - i,
    {
        if same_record(&list[i], record) {
            assert(sent[i as int] == record@);
            return true;
        }
        i = i + 1;
    }
    false
}

/// The entries of `queue` that are equal to no entry of `sent`, in order:
/// what is left to send.
pub fn unsent(queue: &Vec<EmailRecord>, sent: &Vec<EmailRecord>) -> (out: Vec<EmailRecord>)
    ensures
        entries(out@) == kept(entries(queue@), entries(sent@)),
{
    let ghost all = entries(queue@);
    let mut out: Vec<EmailRecord> = Vec::new();
    let mut i: usize = 0;
    assert(all.take(0) =~= Seq::<Entry>::empty());
    assert(entries(out@) =~= Seq::<Entry>::empty());
    while i < queue.len()
        invariant
            i <= queue@.len(),
            all == entries(queue@),
            entries(out@) == kept(all.take(i as int), entries(sent@)),
        decreases queue@.len() - i,
    {
        let ghost before = entries(out@);
        assert(all.take(i + 1).drop_last() =~= all.take(i as int));
        assert(all.take(i + 1).last() == queue@[i as int]@);
        if !holds_record(sent, &queue[i]) {
            let copy = copy_record(&queue[i]);
            out.push(copy);
            assert(entries(out@) =~= before.push(queue@[i as int]@));
        }
        i = i + 1;
    }
    assert(all.take(queue@.len() as int) =~= all);
    out
}

/// What happened to the last message handed out for sending.
#[derive(Clone, Copy, Debug, PartialEq, Eq, Structural)]
pub enum MailEvent {
    /// Nothing has been sent yet.
    Started,
    /// The message was accepted by the mail service.
    Delivered,
    /// The mail service refused the message, or could not be reached.
    Refused,
}

/// What to do next.
pub enum MailAction {
    /// Send the entry with this index; on delivery, delete its photos.
    Send(usize),
    /// All is sent: store these entries as the new queue and report
    /// success.
    Store(Vec<EmailRecord>),
    /// Give up and report the failure; the stored queue stays as it is.
    Abort,
}

/// Decides the next step of a mail run over `queue`, of which the first
/// `delivered` entries have been delivered, after `event`. Returns the
/// number of entries delivered by now and what to do next.
///
/// The entries are sent in order. The first refusal ends the run. After the
/// last delivery, the entries that are equal to no delivered entry are
/// stored as the new queue.
pub fn advance(queue: &Vec<EmailRecord>, delivered: usize, event: MailEvent) -> (out: (
    usize,
    MailAction,
))
    ensures
        match event {
            MailEvent::Started => out.0 == 0 && if queue@.len() == 0 {
                out.1 matches MailAction::Store(rest) && rest@.len() == 0
            } else {
                out.1 matches MailAction::Send(i) && i == 0
            },
            MailEvent::Delivered => if delivered < queue@.len() {
                &&& out.0 == delivered + 1
                &&& if delivered + 1 < queue@.len() {
                    out.1 matches MailAction::Send(i) && i == delivered + 1
                } else {
                    out.1 matches MailAction::Store(rest) && entries(rest@) == kept(
                        entries(queue@),
                        entries(queue@),
                    ) && rest@.len() == 0
                }
            } else {
                out.0 == delivered && out.1 is Abort
            },
            MailEvent::Refused => out.0 == delivered && out.1 is Abort,
        },
{
    match event {
        MailEvent::Started => {
            if queue.len() == 0 {
                (0, MailAction::Store(Vec::new()))
            } else {
                (0, MailAction::Send(0))
            }
        },
        MailEvent::Delivered => {
            if delivered >= queue.len() {
                (delivered, MailAction::Abort)
            } else if delivered + 1 < queue.len() {
                (delivered + 1, MailAction::Send(delivered + 1))
            } else {
                let rest = unsent(queue, queue);
                proof {
                    let all = entries(queue@);
                    assert forall|i: int| 0 <= i < all.len() implies all.contains(
                        #[trigger] all[i],
                    ) by {}
                    lemma_all_sent(all, all);
                    assert(entries(rest@).len() == 0);
                }
                (delivered + 1, MailAction::Store(rest))
            }
        },
        MailEvent::Refused => (delivered, MailAction::Abort),
    }
}

} // verus!
