//! Kernel uevents of the power supply subsystem.
//!
//! A message is a run of NUL-terminated strings. The first is
//! `ACTION@DEVPATH`, the others are `KEY=VALUE`:
//!
//! ```text
//! change@/devices/.../power_supply/battery\0
//! ACTION=change\0
//! DEVPATH=/devices/.../power_supply/battery\0
//! SUBSYSTEM=power_supply\0
//! POWER_SUPPLY_STATUS=Charging\0
//! POWER_SUPPLY_CAPACITY=85\0
//! SEQNUM=12345\0
//! ```

use vstd::prelude::*;
use vstd::string::StringExecFns;
use vstd::utf8::encode_utf8;

use crate::text::{
    after_prefix, chars_of, contains, has_infix, law_after_prefix, law_infix, same_text, string_of,
    strip_prefix,
};
use crate::utf8::{
    law_lossy_keeps_nul, law_lossy_reads_back, law_lossy_splits_at_nul, lossy, utf8_lossy,
};

pub use crate::listener::UeventListener;

verus! {

/// Netlink protocol number of kernel object uevents.
pub const NETLINK_KOBJECT_UEVENT: i32 = 15;

/// Multicast group mask of uevents in the kernel's text format.
pub const KOBJECT_UEVENT_MULTICAST_GROUP: u32 = 1;

/// Size of the buffer for one message.
pub const RECV_BUFFER_SIZE: usize = 8192;

/// What the device path of a relevant event holds.
pub const RELEVANT_DEVPATH_FRAGMENT: &'static str = "/power_supply/battery";

/// The subsystem of a relevant event.
pub const RELEVANT_SUBSYSTEM: &'static str = "power_supply";

/// One uevent.
#[derive(Debug, Clone, PartialEq, Eq)]
pub struct Uevent {
    pub action: String,
    pub devpath: String,
    pub subsystem: String,
    /// The value of `POWER_SUPPLY_CAPACITY`, where the message has it.
    pub capacity: Option<String>,
    /// The value of `POWER_SUPPLY_STATUS`, where the message has it.
    pub status: Option<String>,
    /// The value of `SEQNUM`, where the message has it.
    pub seqnum: Option<String>,
}

/// The texts of an event.
#[verifier::ext_equal]
pub struct UeventView {
    pub action: Seq<char>,
    pub devpath: Seq<char>,
    pub subsystem: Seq<char>,
    pub capacity: Option<Seq<char>>,
    pub status: Option<Seq<char>>,
    pub seqnum: Option<Seq<char>>,
}

/// The text of an optional string.
pub open spec fn text_of(s: Option<String>) -> Option<Seq<char>> {
    match s {
        Some(v) => Some(v@),
        None => None,
    }
}

impl View for Uevent {
    type V = UeventView;

    open spec fn view(&self) -> UeventView {
        UeventView {
            action: self.action@,
            devpath: self.devpath@,
            subsystem: self.subsystem@,
            capacity: text_of(self.capacity),
            status: text_of(self.status),
            seqnum: text_of(self.seqnum),
        }
    }
}

/// The stretches of `s` between the occurrences of `sep`, in order. There is
/// one more of them than occurrences, and some may be empty.
pub open spec fn split_on(s: Seq<char>, sep: char) -> Seq<Seq<char>>
    decreases s.len(),
{
    if s.len() == 0 {
        seq![seq![]]
    } else {
        let before = split_on(s.drop_last(), sep);
        if s.last() == sep {
            before.push(seq![])
        } else {
            before.drop_last().push(before.last().push(s.last()))
        }
    }
}

/// The strings of a message: what stands between NULs and is not empty.
pub open spec fn message_parts(text: Seq<char>) -> Seq<Seq<char>> {
    split_on(text, '\0').filter(|p: Seq<char>| p.len() > 0)
}

/// The value of the last of `parts` that begins with `key`.
pub open spec fn last_value(parts: Seq<Seq<char>>, key: Seq<char>) -> Option<Seq<char>>
    decreases parts.len(),
{
    if parts.len() == 0 {
        None
    } else if key.is_prefix_of(parts.last()) {
        after_prefix(parts.last(), key)
    } else {
        last_value(parts.drop_last(), key)
    }
}

/// The value of the first of `parts` that begins with `key`.
pub open spec fn first_value(parts: Seq<Seq<char>>, key: Seq<char>) -> Option<Seq<char>>
    decreases parts.len(),
{
    if parts.len() == 0 {
        None
    } else {
        match first_value(parts.drop_last(), key) {
            Some(v) => Some(v),
            None => after_prefix(parts.last(), key),
        }
    }
}

/// The action and the device path of a string `ACTION@DEVPATH`, split at its
/// first `@`; both empty where it has none.
pub open spec fn header(first: Seq<char>) -> (Seq<char>, Seq<char>) {
    match first.index_of_first('@') {
        Some(i) => (first.take(i), first.skip(i + 1)),
        None => (seq![], seq![]),
    }
}

/// `v`, or `fallback` where there is none.
pub open spec fn value_or(v: Option<Seq<char>>, fallback: Seq<char>) -> Seq<char> {
    match v {
        Some(x) => x,
        None => fallback,
    }
}

/// The event that a message with the strings `parts` announces. The keys
/// `ACTION` and `DEVPATH` take precedence over the first string, and of a
/// repeated `ACTION`, `DEVPATH` or `SUBSYSTEM` the last counts; of a repeated
/// `POWER_SUPPLY_CAPACITY`, `POWER_SUPPLY_STATUS` or `SEQNUM` the first.
pub open spec fn event_of(parts: Seq<Seq<char>>) -> UeventView
    recommends
        parts.len() > 0,
{
    let pairs = parts.skip(1);
    UeventView {
        action: value_or(last_value(pairs, "ACTION="@), header(parts[0]).0),
        devpath: value_or(last_value(pairs, "DEVPATH="@), header(parts[0]).1),
        subsystem: value_or(last_value(pairs, "SUBSYSTEM="@), seq![]),
        capacity: first_value(pairs, "POWER_SUPPLY_CAPACITY="@),
        status: first_value(pairs, "POWER_SUPPLY_STATUS="@),
        seqnum: first_value(pairs, "SEQNUM="@),
    }
}

/// The event in the message `bytes`; none where the message has no strings.
pub open spec fn parsed(bytes: Seq<u8>) -> Option<UeventView> {
    let parts = message_parts(lossy(bytes));
    if parts.len() == 0 {
        None
    } else {
        Some(event_of(parts))
    }
}

/// The texts that a list of character vectors holds.
pub open spec fn deep(v: Seq<Vec<char>>) -> Seq<Seq<char>> {
    Seq::new(v.len(), |i: int| v[i]@)
}

/// The strings of the message `cs`.
fn split_message(cs: &[char]) -> (r: Vec<Vec<char>>)
    ensures
        deep(r@) == message_parts(cs@),
{
    let ghost kept = |p: Seq<char>| p.len() > 0;
    let mut out: Vec<Vec<char>> = Vec::new();
    let mut current: Vec<char> = Vec::new();
    let mut i: usize = 0;
    // Every stretch but the one being read, empty ones included.
    let ghost mut done: Seq<Seq<char>> = seq![];
    proof {
        reveal(Seq::filter);
        assert(cs@.take(0) =~= seq![]);
        assert(done.push(current@) =~= split_on(cs@.take(0), '\0'));
        assert(deep(out@) =~= done.filter(kept));
    }
    while i < cs.len()
        invariant
            i <= cs@.len(),
            split_on(cs@.take(i as int), '\0') == done.push(current@),
            deep(out@) == done.filter(kept),
            kept == (|p: Seq<char>| p.len() > 0),
        decreases cs@.len() - i,
    {
        let c: char = cs[i];
        let ghost before = cs@.take(i as int);
        let ghost after = cs@.take(i + 1);
        let ghost out_before = out@;
        proof {
            reveal(Seq::filter);
            assert(after.drop_last() =~= before);
            assert(after.last() == c);
        }
        if c == '\0' {
            let ghost ended = current@;
            if current.len() > 0 {
                out.push(current);
                proof {
                    assert(deep(out@) =~= deep(out_before).push(ended));
                }
            }
            current = Vec::new();
            proof {
                assert(done.push(ended).drop_last() =~= done);
                assert(deep(out@) =~= done.push(ended).filter(kept));
                done = done.push(ended);
                assert(done.push(current@) =~= split_on(after, '\0'));
            }
        } else {
            let ghost partial = current@;
            current.push(c);
            proof {
                assert(done.push(partial).drop_last() =~= done);
                assert(done.push(partial).last() =~= partial);
                assert(done.push(current@) =~= split_on(after, '\0'));
            }
        }
        i = i + 1;
    }
    proof {
        reveal(Seq::filter);
        assert(cs@.take(i as int) =~= cs@);
        assert(done.push(current@).drop_last() =~= done);
    }
    if current.len() > 0 {
        let ghost out_before = out@;
        let ghost ended = current@;
        out.push(current);
        proof {
            assert(deep(out@) =~= deep(out_before).push(ended));
        }
    }
    proof {
        assert(deep(out@) =~= message_parts(cs@));
    }
    out
}

/// The action and the device path in `first`, split at its first `@`.
fn split_header(first: &[char]) -> (r: (String, String))
    ensures
        (r.0@, r.1@) == header(first@),
{
    let mut i: usize = 0;
    proof {
        first@.index_of_first_ensures('@');
    }
    while i < first.len()
        invariant
            i <= first@.len(),
            forall|k: int| 0 <= k < i ==> first@[k] != '@',
        decreases first@.len() - i,
    {
        if first[i] == '@' {
            let action = string_of(first, 0, i);
            let devpath = string_of(first, i + 1, first.len());
            proof {
                assert(first@.contains('@'));
                first@.index_of_first_ensures('@');
                assert(action@ =~= first@.take(i as int));
                assert(devpath@ =~= first@.skip(i + 1));
            }
            return (action, devpath);
        }
        i = i + 1;
    }
    (String::new(), String::new())
}

/// Parses a message into an event. Gives `None` where the message has no
/// strings, and never fails otherwise: a string without `=`, an unknown key and
/// bytes that are no UTF-8 are all taken as they come.
pub fn parse_uevent(buf: &[u8]) -> (r: Option<Uevent>)
    ensures
        match r {
            Some(event) => parsed(buf@) == Some(event@),
            None => parsed(buf@) is None,
        },
{
    let text = utf8_lossy(buf);
    let cs = chars_of(text.as_str());
    let parts = split_message(cs.as_slice());
    let ghost all = message_parts(lossy(buf@));
    proof {
        assert(deep(parts@).len() == parts@.len());
    }
    if parts.len() == 0 {
        return None;
    }
    let (mut action, mut devpath) = split_header(parts[0].as_slice());
    let mut subsystem = String::new();
    let mut capacity: Option<String> = None;
    let mut status: Option<String> = None;
    let mut seqnum: Option<String> = None;
    let ghost head = header(all[0]);
    let mut i: usize = 1;
    proof {
        assert(all[0] == parts@[0]@);
        assert(all.subrange(1, 1) =~= seq![]);
    }
    while i < parts.len()
        invariant
            1 <= i <= parts@.len(),
            all == deep(parts@),
            head == header(all[0]),
            action@ == value_or(last_value(all.subrange(1, i as int), "ACTION="@), head.0),
            devpath@ == value_or(last_value(all.subrange(1, i as int), "DEVPATH="@), head.1),
            subsystem@ == value_or(last_value(all.subrange(1, i as int), "SUBSYSTEM="@), seq![]),
            text_of(capacity) == first_value(
                all.subrange(1, i as int),
                "POWER_SUPPLY_CAPACITY="@,
            ),
            text_of(status) == first_value(all.subrange(1, i as int), "POWER_SUPPLY_STATUS="@),
            text_of(seqnum) == first_value(all.subrange(1, i as int), "SEQNUM="@),
        decreases parts@.len() - i,
    {
        let part: &[char] = parts[i].as_slice();
        proof {
            assert(all.subrange(1, i + 1).drop_last() =~= all.subrange(1, i as int));
            assert(all.subrange(1, i + 1).last() == part@);
        }
        if let Some(rest) = strip_prefix(part, "ACTION=") {
            action = rest;
        }
        if let Some(rest) = strip_prefix(part, "DEVPATH=") {
            devpath = rest;
        }
        if let Some(rest) = strip_prefix(part, "SUBSYSTEM=") {
            subsystem = rest;
        }
        if capacity.is_none() {
            capacity = strip_prefix(part, "POWER_SUPPLY_CAPACITY=");
        }
        if status.is_none() {
            status = strip_prefix(part, "POWER_SUPPLY_STATUS=");
        }
        if seqnum.is_none() {
            seqnum = strip_prefix(part, "SEQNUM=");
        }
        i = i + 1;
    }
    proof {
        assert(all.subrange(1, i as int) =~= all.skip(1));
    }
    Some(Uevent { action, devpath, subsystem, capacity, status, seqnum })
}

/// An event with nothing in it, which stands for a message that has no strings.
pub open spec fn empty_event() -> UeventView {
    UeventView {
        action: seq![],
        devpath: seq![],
        subsystem: seq![],
        capacity: None,
        status: None,
        seqnum: None,
    }
}

/// The event that a received message is handed on as.
pub open spec fn received(bytes: Seq<u8>) -> UeventView {
    match parsed(bytes) {
        Some(event) => event,
        None => empty_event(),
    }
}

/// Parses a received message; one without strings becomes the empty event.
pub fn parse_received(buf: &[u8]) -> (r: Uevent)
    ensures
        r@ == received(buf@),
        parsed(buf@) matches Some(event) ==> r@ == event,
{
    match parse_uevent(buf) {
        Some(event) => event,
        None => Uevent {
            action: String::new(),
            devpath: String::new(),
            subsystem: String::new(),
            capacity: None,
            status: None,
            seqnum: None,
        },
    }
}

impl UeventView {
    /// An event of the power supply subsystem on a battery device, whatever
    /// its action.
    pub open spec fn relevant(self) -> bool {
        &&& self.subsystem == RELEVANT_SUBSYSTEM@
        &&& has_infix(self.devpath, RELEVANT_DEVPATH_FRAGMENT@)
    }

    /// An event without action, device path and subsystem.
    pub open spec fn blank(self) -> bool {
        &&& self.action.len() == 0
        &&& self.devpath.len() == 0
        &&& self.subsystem.len() == 0
    }

    /// The one-line summary.
    pub open spec fn line(self) -> Seq<char> {
        "action="@ + self.action + " subsystem="@ + self.subsystem + " devpath="@ + self.devpath
            + " cap="@ + value_or(self.capacity, "-"@) + " status="@ + value_or(self.status, "-"@)
            + " seq="@ + value_or(self.seqnum, "-"@)
    }
}

/// Appends `v`, or a dash where there is none.
fn push_or_dash(out: &mut String, v: &Option<String>)
    ensures
        final(out)@ == old(out)@ + value_or(text_of(*v), "-"@),
{
    match v {
        Some(s) => out.append(s.as_str()),
        None => out.append("-"),
    }
}

impl Uevent {
    /// Whether the event concerns the battery: a `power_supply` event on the
    /// battery device. Any action counts, so that no plug or unplug is missed.
    pub fn is_relevant(&self) -> (r: bool)
        ensures
            r == self@.relevant(),
            r == (self.subsystem@ == "power_supply"@ && has_infix(
                self.devpath@,
                "/power_supply/battery"@,
            )),
    {
        same_text(self.subsystem.as_str(), RELEVANT_SUBSYSTEM) && contains(
            self.devpath.as_str(),
            RELEVANT_DEVPATH_FRAGMENT,
        )
    }

    /// Whether the event stands for a message that could not be parsed.
    pub fn is_parse_failure(&self) -> (r: bool)
        ensures
            r == self@.blank(),
    {
        self.action.as_str().is_empty() && self.devpath.as_str().is_empty()
            && self.subsystem.as_str().is_empty()
    }

    /// One line with all fields, for debug logs. A missing field shows as `-`.
    pub fn summary(&self) -> (r: String)
        ensures
            r@ == self@.line(),
    {
        let mut out = String::new();
        out.append("action=");
        out.append(self.action.as_str());
        out.append(" subsystem=");
        out.append(self.subsystem.as_str());
        out.append(" devpath=");
        out.append(self.devpath.as_str());
        out.append(" cap=");
        push_or_dash(&mut out, &self.capacity);
        out.append(" status=");
        push_or_dash(&mut out, &self.status);
        out.append(" seq=");
        push_or_dash(&mut out, &self.seqnum);
        proof {
            assert(out@ =~= self@.line());
        }
        out
    }
}

/// The text of a message with the strings `parts`: each ends in a NUL.
pub open spec fn message_text(parts: Seq<Seq<char>>) -> Seq<char>
    decreases parts.len(),
{
    if parts.len() == 0 {
        seq![]
    } else {
        message_text(parts.drop_last()) + parts.last().push('\0')
    }
}

/// The bytes of a message with the strings `parts`.
pub open spec fn message(parts: Seq<Seq<char>>) -> Seq<u8> {
    encode_utf8(message_text(parts))
}

/// Whether `parts` can be the strings of a message: none is empty, and none
/// holds a NUL.
pub open spec fn are_message_parts(parts: Seq<Seq<char>>) -> bool {
    forall|i: int|
        0 <= i < parts.len() ==> (#[trigger] parts[i]).len() > 0 && !parts[i].contains('\0')
}

/// There is always a last stretch.
proof fn lemma_split_nonempty(s: Seq<char>, sep: char)
    ensures
        split_on(s, sep).len() > 0,
    decreases s.len(),
{
    if s.len() > 0 {
        lemma_split_nonempty(s.drop_last(), sep);
    }
}

/// Characters other than the separator extend the last stretch.
proof fn lemma_split_extend(s: Seq<char>, t: Seq<char>, sep: char)
    requires
        !t.contains(sep),
    ensures
        split_on(s + t, sep) == split_on(s, sep).drop_last().push(split_on(s, sep).last() + t),
    decreases t.len(),
{
    lemma_split_nonempty(s, sep);
    let before = split_on(s, sep);
    if t.len() == 0 {
        assert(s + t =~= s);
        assert(before.last() + t =~= before.last());
        assert(before.drop_last().push(before.last()) =~= before);
    } else {
        let u = t.drop_last();
        assert forall|c: char| u.contains(c) implies t.contains(c) by {
            let k = choose|k: int| 0 <= k < u.len() && u[k] == c;
            assert(t[k] == c);
        }
        lemma_split_extend(s, u, sep);
        assert((s + t).drop_last() =~= s + u);
        assert((s + t).last() == t.last());
        assert(t[t.len() - 1] == t.last());
        assert(t.contains(t.last()));
        let mid = split_on(s + u, sep);
        assert(mid.drop_last() =~= before.drop_last());
        assert(mid.last().push(t.last()) =~= before.last() + t);
    }
}

/// The strings of a written message are the strings it was written with.
pub proof fn lemma_parts_of_message_text(parts: Seq<Seq<char>>)
    requires
        are_message_parts(parts),
    ensures
        split_on(message_text(parts), '\0') == parts.push(seq![]),
        message_parts(message_text(parts)) == parts,
    decreases parts.len(),
{
    reveal(Seq::filter);
    let kept = |p: Seq<char>| p.len() > 0;
    let empty: Seq<char> = seq![];
    if parts.len() == 0 {
        assert(split_on(message_text(parts), '\0') =~= parts.push(empty));
        assert(parts.push(empty).drop_last() =~= parts);
        assert(parts.filter(kept) =~= parts);
    } else {
        let front = parts.drop_last();
        let last = parts.last();
        assert(are_message_parts(front)) by {
            assert forall|i: int| 0 <= i < front.len() implies (#[trigger] front[i]).len() > 0
                && !front[i].contains('\0') by {
                assert(front[i] == parts[i]);
            }
        }
        lemma_parts_of_message_text(front);
        assert(parts[parts.len() - 1] == last);
        let text = message_text(front);
        lemma_split_extend(text, last, '\0');
        assert(front.push(empty).drop_last() =~= front);
        assert(empty + last =~= last);
        assert(split_on(text + last, '\0') =~= parts);
        assert(message_text(parts).drop_last() =~= text + last);
        assert(split_on(message_text(parts), '\0') =~= parts.push(empty));
        assert(parts.push(empty).drop_last() =~= parts);
        lemma_filter_keeps_all(parts, kept);
    }
}

/// A filter that every element passes changes nothing.
proof fn lemma_filter_keeps_all(s: Seq<Seq<char>>, kept: spec_fn(Seq<char>) -> bool)
    requires
        forall|i: int| 0 <= i < s.len() ==> kept(#[trigger] s[i]),
    ensures
        s.filter(kept) == s,
    decreases s.len(),
{
    reveal(Seq::filter);
    if s.len() > 0 {
        assert forall|i: int| 0 <= i < s.drop_last().len() implies kept(
            #[trigger] s.drop_last()[i],
        ) by {
            assert(s.drop_last()[i] == s[i]);
        }
        lemma_filter_keeps_all(s.drop_last(), kept);
        assert(s.drop_last().push(s.last()) =~= s);
    }
}

/// Parsing a written message gives the event of the strings it was written
/// with.
pub proof fn law_message_reads_back(parts: Seq<Seq<char>>)
    requires
        are_message_parts(parts),
        parts.len() > 0,
    ensures
        parsed(message(parts)) == Some(event_of(parts)),
{
    law_lossy_reads_back(message_text(parts));
    lemma_parts_of_message_text(parts);
}

/// A message yields no event exactly when it consists of NULs.
pub proof fn law_no_event_without_text(bytes: Seq<u8>)
    ensures
        parsed(bytes) is None <==> forall|i: int| 0 <= i < bytes.len() ==> bytes[i] == 0,
{
    law_lossy_keeps_nul(bytes);
    lemma_no_parts(lossy(bytes));
}

/// There are no strings exactly in a text of NULs.
proof fn lemma_no_parts(text: Seq<char>)
    ensures
        message_parts(text).len() == 0 <==> forall|i: int|
            0 <= i < text.len() ==> text[i] == '\0',
        (forall|i: int| 0 <= i < text.len() ==> text[i] == '\0') ==> split_on(
            text,
            '\0',
        ).last().len() == 0,
    decreases text.len(),
{
    reveal(Seq::filter);
    let kept = |p: Seq<char>| p.len() > 0;
    let pieces = split_on(text, '\0');
    lemma_split_nonempty(text, '\0');
    assert(message_parts(text) == if kept(pieces.last()) {
        pieces.drop_last().filter(kept).push(pieces.last())
    } else {
        pieces.drop_last().filter(kept)
    });
    if text.len() == 0 {
        assert(pieces.drop_last() =~= seq![]);
        assert(pieces.drop_last().filter(kept).len() == 0);
    } else {
        let front = text.drop_last();
        lemma_no_parts(front);
        lemma_split_nonempty(front, '\0');
        let before = split_on(front, '\0');
        if text.last() == '\0' {
            assert(pieces.drop_last() =~= before);
            assert(pieces.last().len() == 0);
            assert(message_parts(text) == message_parts(front));
            if forall|i: int| 0 <= i < front.len() ==> front[i] == '\0' {
                assert forall|i: int| 0 <= i < text.len() implies text[i] == '\0' by {
                    if i < front.len() {
                        assert(front[i] == text[i]);
                    }
                }
            } else {
                let i = choose|i: int| 0 <= i < front.len() && front[i] != '\0';
                assert(front[i] == text[i]);
            }
        } else {
            assert(pieces.last() =~= before.last().push(text.last()));
            assert(text[text.len() - 1] != '\0');
            assert(kept(pieces.last()));
        }
    }
}

/// A separator keeps the stretches before it and those behind it apart.
proof fn lemma_split_at(s: Seq<char>, t: Seq<char>, sep: char)
    ensures
        split_on(s + seq![sep] + t, sep) == split_on(s, sep) + split_on(t, sep),
    decreases t.len(),
{
    let all = s + seq![sep] + t;
    let left = split_on(s, sep);
    if t.len() == 0 {
        assert(all.drop_last() =~= s);
        assert(split_on(all, sep) =~= left + split_on(t, sep));
    } else {
        let front = t.drop_last();
        let right = split_on(front, sep);
        lemma_split_at(s, front, sep);
        lemma_split_nonempty(front, sep);
        assert(all.drop_last() =~= s + seq![sep] + front);
        assert(all.last() == t.last());
        assert((left + right).last() == right.last());
        assert((left + right).drop_last() =~= left + right.drop_last());
        assert(split_on(all, sep) =~= left + split_on(t, sep));
    }
}

/// A NUL ends a string, whatever stands on either side: the strings of a message
/// are those before the NUL, followed by those behind it.
pub proof fn law_nul_separates_strings(before: Seq<u8>, after: Seq<u8>)
    ensures
        message_parts(lossy(before + seq![0u8] + after)) == message_parts(lossy(before))
            + message_parts(lossy(after)),
{
    let kept = |p: Seq<char>| p.len() > 0;
    law_lossy_splits_at_nul(before, after);
    lemma_split_at(lossy(before), lossy(after), '\0');
    Seq::filter_distributes_over_add(
        split_on(lossy(before), '\0'),
        split_on(lossy(after), '\0'),
        kept,
    );
}

/// `n` NULs.
pub open spec fn nuls(n: nat) -> Seq<u8> {
    Seq::new(n, |i: int| 0u8)
}

/// NULs in front of a message and behind it have no influence.
pub proof fn law_outer_nuls_do_not_count(bytes: Seq<u8>, before: nat, after: nat)
    ensures
        parsed(nuls(before) + bytes + nuls(after)) == parsed(bytes),
    decreases before + after,
{
    let all = nuls(before) + bytes + nuls(after);
    let none: Seq<u8> = seq![];
    lemma_no_parts(lossy(none));
    if before > 0 {
        let fewer = nuls((before - 1) as nat) + bytes + nuls(after);
        law_outer_nuls_do_not_count(bytes, (before - 1) as nat, after);
        law_nul_separates_strings(none, fewer);
        assert(all =~= none + seq![0u8] + fewer);
        assert(message_parts(lossy(all)) =~= message_parts(lossy(fewer)));
    } else if after > 0 {
        let fewer = nuls(before) + bytes + nuls((after - 1) as nat);
        law_outer_nuls_do_not_count(bytes, before, (after - 1) as nat);
        law_nul_separates_strings(fewer, none);
        assert(all =~= fewer + seq![0u8] + none);
        assert(message_parts(lossy(all)) =~= message_parts(lossy(fewer)));
    } else {
        assert(all =~= bytes);
    }
}

/// Whether a string begins with none of the keys that are read.
pub open spec fn has_no_known_key(part: Seq<char>) -> bool {
    &&& !"ACTION="@.is_prefix_of(part)
    &&& !"DEVPATH="@.is_prefix_of(part)
    &&& !"SUBSYSTEM="@.is_prefix_of(part)
    &&& !"POWER_SUPPLY_CAPACITY="@.is_prefix_of(part)
    &&& !"POWER_SUPPLY_STATUS="@.is_prefix_of(part)
    &&& !"SEQNUM="@.is_prefix_of(part)
}

/// A string that does not begin with a key has no influence on its values.
proof fn lemma_other_part(
    before: Seq<Seq<char>>,
    part: Seq<char>,
    after: Seq<Seq<char>>,
    key: Seq<char>,
)
    requires
        !key.is_prefix_of(part),
    ensures
        last_value(before + seq![part] + after, key) == last_value(before + after, key),
        first_value(before + seq![part] + after, key) == first_value(before + after, key),
    decreases after.len(),
{
    let with = before + seq![part] + after;
    let without = before + after;
    if after.len() == 0 {
        assert(with.drop_last() =~= before);
        assert(without =~= before);
    } else {
        let front = after.drop_last();
        lemma_other_part(before, part, front, key);
        assert(with.drop_last() =~= before + seq![part] + front);
        assert(without.drop_last() =~= before + front);
    }
}

/// A string behind the first with any other key, or with none, has no influence.
pub proof fn law_other_keys_are_ignored(
    first: Seq<char>,
    before: Seq<Seq<char>>,
    part: Seq<char>,
    after: Seq<Seq<char>>,
)
    requires
        has_no_known_key(part),
    ensures
        event_of(seq![first] + (before + seq![part] + after)) == event_of(
            seq![first] + (before + after),
        ),
{
    let with = before + seq![part] + after;
    let without = before + after;
    assert((seq![first] + with).skip(1) =~= with);
    assert((seq![first] + without).skip(1) =~= without);
    lemma_other_part(before, part, after, "ACTION="@);
    lemma_other_part(before, part, after, "DEVPATH="@);
    lemma_other_part(before, part, after, "SUBSYSTEM="@);
    lemma_other_part(before, part, after, "POWER_SUPPLY_CAPACITY="@);
    lemma_other_part(before, part, after, "POWER_SUPPLY_STATUS="@);
    lemma_other_part(before, part, after, "SEQNUM="@);
}

/// Where a message names its action and its device path, the first string has
/// no influence.
pub proof fn law_explicit_fields_win(first: Seq<char>, other: Seq<char>, pairs: Seq<Seq<char>>)
    requires
        last_value(pairs, "ACTION="@) is Some,
        last_value(pairs, "DEVPATH="@) is Some,
    ensures
        event_of(seq![first] + pairs) == event_of(seq![other] + pairs),
{
    assert((seq![first] + pairs).skip(1) =~= pairs);
    assert((seq![other] + pairs).skip(1) =~= pairs);
}

/// The last value of a key is what follows the key in the last string that
/// begins with it.
pub proof fn law_last_value(parts: Seq<Seq<char>>, key: Seq<char>)
    ensures
        last_value(parts, key) is None <==> forall|i: int|
            0 <= i < parts.len() ==> !key.is_prefix_of(#[trigger] parts[i]),
        last_value(parts, key) is Some ==> exists|i: int|
            {
                &&& 0 <= i < parts.len()
                &&& last_value(parts, key) == after_prefix(#[trigger] parts[i], key)
                &&& forall|j: int| i < j < parts.len() ==> !key.is_prefix_of(#[trigger] parts[j])
            },
    decreases parts.len(),
{
    if parts.len() > 0 {
        let front = parts.drop_last();
        let n = parts.len() - 1;
        law_last_value(front, key);
        assert forall|i: int| 0 <= i < front.len() implies front[i] == #[trigger] parts[i] by {}
        if key.is_prefix_of(parts.last()) {
            assert(parts[n] == parts.last());
        } else if last_value(front, key) is Some {
            let i = choose|i: int|
                {
                    &&& 0 <= i < front.len()
                    &&& last_value(front, key) == after_prefix(#[trigger] front[i], key)
                    &&& forall|j: int|
                        i < j < front.len() ==> !key.is_prefix_of(#[trigger] front[j])
                };
            assert(front[i] == parts[i]);
            assert forall|j: int| i < j < parts.len() implies !key.is_prefix_of(
                #[trigger] parts[j],
            ) by {
                if j < n {
                    assert(front[j] == parts[j]);
                }
            }
        } else {
            assert forall|i: int| 0 <= i < parts.len() implies !key.is_prefix_of(
                #[trigger] parts[i],
            ) by {
                if i < n {
                    assert(front[i] == parts[i]);
                }
            }
        }
    }
}

/// The first value of a key is what follows the key in the first string that
/// begins with it.
pub proof fn law_first_value(parts: Seq<Seq<char>>, key: Seq<char>)
    ensures
        first_value(parts, key) is None <==> forall|i: int|
            0 <= i < parts.len() ==> !key.is_prefix_of(#[trigger] parts[i]),
        first_value(parts, key) is Some ==> exists|i: int|
            {
                &&& 0 <= i < parts.len()
                &&& first_value(parts, key) == after_prefix(#[trigger] parts[i], key)
                &&& forall|j: int| 0 <= j < i ==> !key.is_prefix_of(#[trigger] parts[j])
            },
    decreases parts.len(),
{
    if parts.len() > 0 {
        let front = parts.drop_last();
        let n = parts.len() - 1;
        law_first_value(front, key);
        assert forall|i: int| 0 <= i < front.len() implies front[i] == #[trigger] parts[i] by {}
        if first_value(front, key) is Some {
            let i = choose|i: int|
                {
                    &&& 0 <= i < front.len()
                    &&& first_value(front, key) == after_prefix(#[trigger] front[i], key)
                    &&& forall|j: int| 0 <= j < i ==> !key.is_prefix_of(#[trigger] front[j])
                };
            assert(front[i] == parts[i]);
            assert forall|j: int| 0 <= j < i implies !key.is_prefix_of(#[trigger] parts[j]) by {
                assert(front[j] == parts[j]);
            }
        } else {
            assert forall|i: int| 0 <= i < n implies !key.is_prefix_of(#[trigger] parts[i]) by {
                assert(front[i] == parts[i]);
            }
            assert(parts[n] == parts.last());
        }
    }
}

/// Whether an event is relevant depends on its subsystem and its device path
/// alone: the action and the payload have no influence.
pub proof fn law_relevance_ignores_action(a: UeventView, b: UeventView)
    requires
        a.subsystem == b.subsystem,
        a.devpath == b.devpath,
    ensures
        a.relevant() == b.relevant(),
{
}

/// A message that yields no event is handed on as one that counts as a parse
/// failure, and never as a relevant one.
pub proof fn law_unparsed_is_parse_failure(bytes: Seq<u8>)
    ensures
        parsed(bytes) is None ==> received(bytes).blank(),
        received(bytes).blank() ==> !received(bytes).relevant(),
{
    reveal_strlit("power_supply");
}

/// The last string with a key gives the key's value.
proof fn lemma_last_value_at(
    before: Seq<Seq<char>>,
    key: Seq<char>,
    v: Seq<char>,
    after: Seq<Seq<char>>,
)
    requires
        forall|i: int| 0 <= i < after.len() ==> !key.is_prefix_of(#[trigger] after[i]),
    ensures
        last_value(before + seq![key + v] + after, key) == Some(v),
    decreases after.len(),
{
    let all = before + seq![key + v] + after;
    if after.len() == 0 {
        law_after_prefix(key, v, key + v);
        assert(key.is_prefix_of(key + v));
        assert(all.last() == key + v);
    } else {
        let front = after.drop_last();
        assert forall|i: int| 0 <= i < front.len() implies !key.is_prefix_of(
            #[trigger] front[i],
        ) by {
            assert(front[i] == after[i]);
        }
        lemma_last_value_at(before, key, v, front);
        assert(all.drop_last() =~= before + seq![key + v] + front);
        assert(all.last() == after[after.len() - 1]);
    }
}

/// The first string with a key gives the key's value.
proof fn lemma_first_value_at(
    before: Seq<Seq<char>>,
    key: Seq<char>,
    v: Seq<char>,
    after: Seq<Seq<char>>,
)
    requires
        forall|i: int| 0 <= i < before.len() ==> !key.is_prefix_of(#[trigger] before[i]),
    ensures
        first_value(before + seq![key + v] + after, key) == Some(v),
    decreases after.len(),
{
    let all = before + seq![key + v] + after;
    if after.len() == 0 {
        law_after_prefix(key, v, key + v);
        law_first_value(before, key);
        assert(all.drop_last() =~= before);
        assert(all.last() == key + v);
    } else {
        lemma_first_value_at(before, key, v, after.drop_last());
        assert(all.drop_last() =~= before + seq![key + v] + after.drop_last());
    }
}

/// What a written message is handed on as, string by string.
proof fn lemma_written_message(first: Seq<char>, pairs: Seq<Seq<char>>)
    requires
        are_message_parts(seq![first] + pairs),
    ensures
        parsed(message(seq![first] + pairs)) == Some(event_of(seq![first] + pairs)),
        received(message(seq![first] + pairs)) == event_of(seq![first] + pairs),
        (seq![first] + pairs)[0] == first,
        (seq![first] + pairs).skip(1) == pairs,
{
    law_message_reads_back(seq![first] + pairs);
    assert((seq![first] + pairs).skip(1) =~= pairs);
}

/// The action of a message is all that stands behind `ACTION=` in its last string
/// with that key, wherever the string stands behind the first one.
pub proof fn law_action_is_read_whole(
    first: Seq<char>,
    before: Seq<Seq<char>>,
    v: Seq<char>,
    after: Seq<Seq<char>>,
)
    requires
        are_message_parts(seq![first] + (before + seq!["ACTION="@ + v] + after)),
        forall|i: int|
            0 <= i < after.len() ==> !"ACTION="@.is_prefix_of(#[trigger] after[i]),
    ensures
        ({
            let bytes = message(seq![first] + (before + seq!["ACTION="@ + v] + after));
            &&& parsed(bytes) matches Some(event) && event.action == v
            &&& received(bytes).action == v
        }),
{
    lemma_written_message(first, before + seq!["ACTION="@ + v] + after);
    lemma_last_value_at(before, "ACTION="@, v, after);
}

/// The device path of a message is all that stands behind `DEVPATH=` in its last string
/// with that key, wherever the string stands behind the first one.
pub proof fn law_devpath_is_read_whole(
    first: Seq<char>,
    before: Seq<Seq<char>>,
    v: Seq<char>,
    after: Seq<Seq<char>>,
)
    requires
        are_message_parts(seq![first] + (before + seq!["DEVPATH="@ + v] + after)),
        forall|i: int|
            0 <= i < after.len() ==> !"DEVPATH="@.is_prefix_of(#[trigger] after[i]),
    ensures
        ({
            let bytes = message(seq![first] + (before + seq!["DEVPATH="@ + v] + after));
            &&& parsed(bytes) matches Some(event) && event.devpath == v
            &&& received(bytes).devpath == v
        }),
{
    lemma_written_message(first, before + seq!["DEVPATH="@ + v] + after);
    lemma_last_value_at(before, "DEVPATH="@, v, after);
}

/// The subsystem of a message is all that stands behind `SUBSYSTEM=` in its last string
/// with that key, wherever the string stands behind the first one.
pub proof fn law_subsystem_is_read_whole(
    first: Seq<char>,
    before: Seq<Seq<char>>,
    v: Seq<char>,
    after: Seq<Seq<char>>,
)
    requires
        are_message_parts(seq![first] + (before + seq!["SUBSYSTEM="@ + v] + after)),
        forall|i: int|
            0 <= i < after.len() ==> !"SUBSYSTEM="@.is_prefix_of(#[trigger] after[i]),
    ensures
        ({
            let bytes = message(seq![first] + (before + seq!["SUBSYSTEM="@ + v] + after));
            &&& parsed(bytes) matches Some(event) && event.subsystem == v
            &&& received(bytes).subsystem == v
        }),
{
    lemma_written_message(first, before + seq!["SUBSYSTEM="@ + v] + after);
    lemma_last_value_at(before, "SUBSYSTEM="@, v, after);
}

/// The charge level of a message is all that stands behind `POWER_SUPPLY_CAPACITY=` in its first string
/// with that key, wherever the string stands behind the first one.
pub proof fn law_capacity_is_read_whole(
    first: Seq<char>,
    before: Seq<Seq<char>>,
    v: Seq<char>,
    after: Seq<Seq<char>>,
)
    requires
        are_message_parts(seq![first] + (before + seq!["POWER_SUPPLY_CAPACITY="@ + v] + after)),
        forall|i: int|
            0 <= i < before.len() ==> !"POWER_SUPPLY_CAPACITY="@.is_prefix_of(#[trigger] before[i]),
    ensures
        ({
            let bytes = message(seq![first] + (before + seq!["POWER_SUPPLY_CAPACITY="@ + v] + after));
            &&& parsed(bytes) matches Some(event) && event.capacity == Some(v)
            &&& received(bytes).capacity == Some(v)
        }),
{
    lemma_written_message(first, before + seq!["POWER_SUPPLY_CAPACITY="@ + v] + after);
    lemma_first_value_at(before, "POWER_SUPPLY_CAPACITY="@, v, after);
}

/// The charging state of a message is all that stands behind `POWER_SUPPLY_STATUS=` in its first string
/// with that key, wherever the string stands behind the first one.
pub proof fn law_status_is_read_whole(
    first: Seq<char>,
    before: Seq<Seq<char>>,
    v: Seq<char>,
    after: Seq<Seq<char>>,
)
    requires
        are_message_parts(seq![first] + (before + seq!["POWER_SUPPLY_STATUS="@ + v] + after)),
        forall|i: int|
            0 <= i < before.len() ==> !"POWER_SUPPLY_STATUS="@.is_prefix_of(#[trigger] before[i]),
    ensures
        ({
            let bytes = message(seq![first] + (before + seq!["POWER_SUPPLY_STATUS="@ + v] + after));
            &&& parsed(bytes) matches Some(event) && event.status == Some(v)
            &&& received(bytes).status == Some(v)
        }),
{
    lemma_written_message(first, before + seq!["POWER_SUPPLY_STATUS="@ + v] + after);
    lemma_first_value_at(before, "POWER_SUPPLY_STATUS="@, v, after);
}

/// The sequence number of a message is all that stands behind `SEQNUM=` in its first string
/// with that key, wherever the string stands behind the first one.
pub proof fn law_seqnum_is_read_whole(
    first: Seq<char>,
    before: Seq<Seq<char>>,
    v: Seq<char>,
    after: Seq<Seq<char>>,
)
    requires
        are_message_parts(seq![first] + (before + seq!["SEQNUM="@ + v] + after)),
        forall|i: int|
            0 <= i < before.len() ==> !"SEQNUM="@.is_prefix_of(#[trigger] before[i]),
    ensures
        ({
            let bytes = message(seq![first] + (before + seq!["SEQNUM="@ + v] + after));
            &&& parsed(bytes) matches Some(event) && event.seqnum == Some(v)
            &&& received(bytes).seqnum == Some(v)
        }),
{
    lemma_written_message(first, before + seq!["SEQNUM="@ + v] + after);
    lemma_first_value_at(before, "SEQNUM="@, v, after);
}

/// Without a string `ACTION=` or `DEVPATH=` behind the first one, the first one
/// counts: the action is what stands before its first `@`, and the device path
/// what stands behind it. Without an `@` both are empty.
pub proof fn law_header_is_the_fallback(
    action: Seq<char>,
    devpath: Seq<char>,
    plain: Seq<char>,
    pairs: Seq<Seq<char>>,
)
    requires
        are_message_parts(seq![action + seq!['@'] + devpath] + pairs),
        are_message_parts(seq![plain] + pairs),
        !action.contains('@'),
        !plain.contains('@'),
    ensures
        (forall|i: int| 0 <= i < pairs.len() ==> !"ACTION="@.is_prefix_of(#[trigger] pairs[i])) ==> {
            &&& received(message(seq![action + seq!['@'] + devpath] + pairs)).action == action
            &&& received(message(seq![plain] + pairs)).action == Seq::<char>::empty()
        },
        (forall|i: int| 0 <= i < pairs.len() ==> !"DEVPATH="@.is_prefix_of(#[trigger] pairs[i])) ==> {
            &&& received(message(seq![action + seq!['@'] + devpath] + pairs)).devpath == devpath
            &&& received(message(seq![plain] + pairs)).devpath == Seq::<char>::empty()
        },
{
    let first = action + seq!['@'] + devpath;
    lemma_written_message(first, pairs);
    lemma_written_message(plain, pairs);
    law_last_value(pairs, "ACTION="@);
    law_last_value(pairs, "DEVPATH="@);
    first.index_of_first_ensures('@');
    plain.index_of_first_ensures('@');
    let k = action.len() as int;
    assert(first[k] == '@');
    assert(first.contains('@'));
    let at = first.index_of_first('@')->0;
    if at < k {
        assert(action[at] == '@');
        assert(action.contains('@'));
    }
    assert(at == k);
    assert(first.take(k) =~= action);
    assert(first.skip(k + 1) =~= devpath);
}

/// A field that no string behind the first one has is missing: nothing is made
/// up, and the first string never counts for it.
pub proof fn law_missing_fields(first: Seq<char>, pairs: Seq<Seq<char>>)
    requires
        are_message_parts(seq![first] + pairs),
    ensures
        (forall|i: int|
            0 <= i < pairs.len() ==> !"SUBSYSTEM="@.is_prefix_of(#[trigger] pairs[i])) ==> received(
            message(seq![first] + pairs),
        ).subsystem == Seq::<char>::empty(),
        (forall|i: int|
            0 <= i < pairs.len() ==> !"POWER_SUPPLY_CAPACITY="@.is_prefix_of(#[trigger] pairs[i]))
            ==> received(message(seq![first] + pairs)).capacity is None,
        (forall|i: int|
            0 <= i < pairs.len() ==> !"POWER_SUPPLY_STATUS="@.is_prefix_of(#[trigger] pairs[i]))
            ==> received(message(seq![first] + pairs)).status is None,
        (forall|i: int|
            0 <= i < pairs.len() ==> !"SEQNUM="@.is_prefix_of(#[trigger] pairs[i])) ==> received(
            message(seq![first] + pairs),
        ).seqnum is None,
{
    lemma_written_message(first, pairs);
    law_last_value(pairs, "SUBSYSTEM="@);
    law_first_value(pairs, "POWER_SUPPLY_CAPACITY="@);
    law_first_value(pairs, "POWER_SUPPLY_STATUS="@);
    law_first_value(pairs, "SEQNUM="@);
}

/// A message is read as its text: bytes that are no UTF-8 mean what the
/// replacement characters in their place mean.
pub proof fn law_message_is_read_as_text(bytes: Seq<u8>)
    ensures
        parsed(bytes) == parsed(encode_utf8(lossy(bytes))),
{
    law_lossy_reads_back(lossy(bytes));
}

/// Two NULs in a row separate strings as one does.
pub proof fn law_repeated_nuls_count_once(before: Seq<u8>, after: Seq<u8>)
    ensures
        parsed(before + seq![0u8, 0u8] + after) == parsed(before + seq![0u8] + after),
{
    let none: Seq<u8> = seq![];
    lemma_no_parts(lossy(none));
    law_nul_separates_strings(before, after);
    law_nul_separates_strings(before, seq![0u8] + after);
    law_nul_separates_strings(none, after);
    assert(before + seq![0u8, 0u8] + after =~= before + seq![0u8] + (seq![0u8] + after));
    assert(none + seq![0u8] + after =~= seq![0u8] + after);
    assert(message_parts(lossy(seq![0u8] + after)) =~= message_parts(lossy(after)));
}

/// A received message is handed on as the event it carries, in every field; one
/// that carries none as an event with nothing in it.
pub proof fn law_received_is_parsed(bytes: Seq<u8>)
    ensures
        parsed(bytes) matches Some(event) ==> {
            &&& received(bytes).action == event.action
            &&& received(bytes).devpath == event.devpath
            &&& received(bytes).subsystem == event.subsystem
            &&& received(bytes).capacity == event.capacity
            &&& received(bytes).status == event.status
            &&& received(bytes).seqnum == event.seqnum
        },
        parsed(bytes) is None ==> {
            &&& received(bytes).action == Seq::<char>::empty()
            &&& received(bytes).devpath == Seq::<char>::empty()
            &&& received(bytes).subsystem == Seq::<char>::empty()
            &&& received(bytes).capacity is None
            &&& received(bytes).status is None
            &&& received(bytes).seqnum is None
        },
{
}

/// An event shows its own texts, field by field.
pub proof fn law_event_shows_its_fields(event: Uevent)
    ensures
        event@.action == event.action@,
        event@.devpath == event.devpath@,
        event@.subsystem == event.subsystem@,
        event@.capacity is Some <==> event.capacity is Some,
        event.capacity matches Some(s) ==> event@.capacity == Some(s@),
        event@.status is Some <==> event.status is Some,
        event.status matches Some(s) ==> event@.status == Some(s@),
        event@.seqnum is Some <==> event.seqnum is Some,
        event.seqnum matches Some(s) ==> event@.seqnum == Some(s@),
{
}

/// An event is relevant exactly when its subsystem is `power_supply` and its
/// device path has `/power_supply/battery` in it, in one piece.
pub proof fn law_relevance(event: UeventView)
    ensures
        event.relevant() <==> event.subsystem == "power_supply"@ && exists|
            a: Seq<char>,
            b: Seq<char>,
        | event.devpath == #[trigger] (a + "/power_supply/battery"@ + b),
{
    law_infix(event.devpath, "/power_supply/battery"@);
}

/// An event counts as a parse failure exactly when it has no action, no device
/// path and no subsystem.
pub proof fn law_parse_failure(event: UeventView)
    ensures
        event.blank() <==> event.action == Seq::<char>::empty() && event.devpath == Seq::<
            char,
        >::empty() && event.subsystem == Seq::<char>::empty(),
{
    if event.blank() {
        assert(event.action =~= Seq::<char>::empty());
        assert(event.devpath =~= Seq::<char>::empty());
        assert(event.subsystem =~= Seq::<char>::empty());
    }
}

/// The summary has every field behind its name, all of it and in this order, and
/// a dash in place of a missing one.
pub proof fn law_summary(event: UeventView, cap: Seq<char>, st: Seq<char>, seq: Seq<char>)
    requires
        event.capacity == Some(cap) || event.capacity is None && cap == seq!['-'],
        event.status == Some(st) || event.status is None && st == seq!['-'],
        event.seqnum == Some(seq) || event.seqnum is None && seq == seq!['-'],
    ensures
        event.line() == "action="@ + event.action + " subsystem="@ + event.subsystem + " devpath="@
            + event.devpath + " cap="@ + cap + " status="@ + st + " seq="@ + seq,
{
    reveal_strlit("-");
    assert("-"@ =~= seq!['-']);
}

} // verus!
