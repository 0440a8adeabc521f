//! The log of a device: lines that end with a zero or a line feed.

use vstd::prelude::*;
use crate::bytes::{copy_bytes, put_slice, sub_vec};
use crate::text::{chars_of, find_char, first_of, lossy, string_of, utf8_text_lossy};
use crate::words::{
    join_words, lemma_one_word, lemma_spaced, lemma_words_are_words, lemma_words_part, part, spaced,
    spelled, split_words, trim, trimmed, white, words,
};

verus! {

/// The name of the service.
pub const SERVICE: &'static str = "com.apple.syslog_relay";

/// How much is read at once.
pub const BUF_SIZE: usize = 4096;

/// One entry of the log.
#[derive(Debug)]
pub struct SyslogEntry {
    /// The line as the device sent it.
    pub raw: String,
    /// Month, day and time of day.
    pub timestamp: String,
    /// The process with its number.
    pub process: String,
    pub level: String,
    pub message: String,
}

/// What a log entry holds.
#[verifier::ext_equal]
pub struct EntryModel {
    pub raw: Seq<char>,
    pub timestamp: Seq<char>,
    pub process: Seq<char>,
    pub level: Seq<char>,
    pub message: Seq<char>,
}

impl View for SyslogEntry {
    type V = EntryModel;

    open spec fn view(&self) -> EntryModel {
        EntryModel {
            raw: self.raw@,
            timestamp: self.timestamp@,
            process: self.process@,
            level: self.level@,
            message: self.message@,
        }
    }
}

/// A word by its place: empty where there is none.
pub open spec fn word_at(ws: Seq<Seq<char>>, i: int) -> Seq<char> {
    if 0 <= i < ws.len() {
        ws[i]
    } else {
        Seq::empty()
    }
}

/// A day in two columns.
pub open spec fn two_columns(day: Seq<char>) -> Seq<char> {
    if day.len() == 0 {
        seq![' ', ' ']
    } else if day.len() == 1 {
        seq![' '] + day
    } else {
        day
    }
}

/// The time of an entry, from its words.
pub open spec fn time_of(ws: Seq<Seq<char>>) -> Seq<char> {
    if ws.len() == 0 {
        Seq::empty()
    } else {
        ws[0] + seq![' '] + two_columns(word_at(ws, 1)) + seq![' '] + word_at(ws, 2)
    }
}

/// A text without the colons and blanks in front.
pub open spec fn after_colons(s: Seq<char>) -> Seq<char>
    decreases s.len(),
{
    if s.len() >= 2 && s[0] == ':' && s[1] == ' ' {
        after_colons(s.skip(2))
    } else {
        s
    }
}

/// Whether a text starts with a level in angle brackets.
pub open spec fn has_level(rest: Seq<char>) -> bool {
    rest.len() > 0 && rest[0] == '<' && first_of(rest.skip(1), '>') < rest.len() - 1
}

/// The level in angle brackets.
pub open spec fn level_of(rest: Seq<char>) -> Seq<char> {
    if has_level(rest) {
        rest.skip(1).take(first_of(rest.skip(1), '>') as int)
    } else {
        Seq::empty()
    }
}

/// The message behind the level.
pub open spec fn message_of(rest: Seq<char>) -> Seq<char> {
    if has_level(rest) {
        after_colons(rest.skip(first_of(rest.skip(1), '>') as int + 2))
    } else {
        rest
    }
}

/// What the words from the sixth on say.
pub open spec fn tail_of(ws: Seq<Seq<char>>) -> Seq<char> {
    if ws.len() > 5 {
        spaced(ws.skip(5))
    } else {
        Seq::empty()
    }
}

/// The entry that a line stands for.
pub open spec fn entry_of(raw: Seq<char>) -> EntryModel {
    let ws = words(raw);
    EntryModel {
        raw,
        timestamp: time_of(ws),
        process: word_at(ws, 4),
        level: level_of(tail_of(ws)),
        message: message_of(tail_of(ws)),
    }
}

fn skip_colons(s: &Vec<char>, from: usize) -> (at: usize)
    requires
        from <= s@.len(),
    ensures
        from <= at <= s@.len(),
        s@.skip(at as int) == after_colons(s@.skip(from as int)),
{
    let mut i: usize = from;
    while s.len() - i >= 2 && s[i] == ':' && s[i + 1] == ' '
        invariant
            from <= i <= s@.len(),
            after_colons(s@.skip(from as int)) == after_colons(s@.skip(i as int)),
        decreases s@.len() - i,
    {
        assert(s@.skip(i as int).skip(2) =~= s@.skip(i + 2));
        i += 2;
    }
    i
}

fn word(ws: &Vec<Vec<char>>, i: usize) -> (w: Vec<char>)
    ensures
        w@ == word_at(spelled(ws@), i as int),
{
    if i < ws.len() {
        let w: Vec<char> = part(&ws[i], 0, ws[i].len());
        assert(w@ =~= ws@[i as int]@);
        w
    } else {
        let none: Vec<char> = Vec::new();
        assert(none@ =~= Seq::<char>::empty());
        none
    }
}

fn put_chars(out: &mut Vec<char>, s: &Vec<char>)
    ensures
        final(out)@ == old(out)@ + s@,
{
    let mut i: usize = 0;
    assert(old(out)@ + s@.take(0) =~= old(out)@);
    while i < s.len()
        invariant
            i <= s@.len(),
            out@ == old(out)@ + s@.take(i as int),
        decreases s@.len() - i,
    {
        out.push(s[i]);
        i += 1;
        assert(out@ =~= old(out)@ + s@.take(i as int));
    }
    assert(s@.take(i as int) =~= s@);
}

fn timestamp(ws: &Vec<Vec<char>>) -> (out: Vec<char>)
    ensures
        out@ == time_of(spelled(ws@)),
{
    let mut out: Vec<char> = Vec::new();
    if ws.len() == 0 {
        assert(out@ =~= Seq::<char>::empty());
        return out;
    }
    put_chars(&mut out, &ws[0]);
    out.push(' ');
    let day: Vec<char> = word(ws, 1);
    if day.len() == 0 {
        out.push(' ');
        out.push(' ');
    } else if day.len() == 1 {
        out.push(' ');
        put_chars(&mut out, &day);
    } else {
        put_chars(&mut out, &day);
    }
    assert(out@ =~= ws@[0]@ + seq![' '] + two_columns(day@));
    out.push(' ');
    put_chars(&mut out, &word(ws, 2));
    assert(out@ =~= time_of(spelled(ws@)));
    out
}

impl SyslogEntry {
    /// Reads a line of the log: month, day, time, host, process, and then the level
    /// in angle brackets and the message.
    pub fn parse(raw: String) -> (entry: SyslogEntry)
        ensures
            entry@ == entry_of(raw@),
            entry.raw == raw,
    {
        let chars: Vec<char> = chars_of(raw.as_str());
        let ws: Vec<Vec<char>> = split_words(&chars);
        let time: Vec<char> = timestamp(&ws);
        let process: Vec<char> = word(&ws, 4);
        let rest: Vec<char> = join_words(&ws, 5);
        assert(rest@ == tail_of(words(raw@)));
        let mut level: Vec<char> = Vec::new();
        let mut start: usize = 0;
        if rest.len() > 0 && rest[0] == '<' {
            let end: usize = find_char(&rest, 1, '>');
            if end < rest.len() {
                level = part(&rest, 1, end);
                assert(level@ =~= rest@.skip(1).take(end - 1));
                start = skip_colons(&rest, end + 1);
            }
        }
        let message: Vec<char> = part(&rest, start, rest.len());
        assert(message@ =~= rest@.skip(start as int));
        assert(level@ =~= level_of(rest@));
        assert(message@ =~= message_of(rest@));
        SyslogEntry {
            raw,
            timestamp: string_of(time.as_slice()),
            process: string_of(process.as_slice()),
            level: string_of(level.as_slice()),
            message: string_of(message.as_slice()),
        }
    }
}

/// Whether a byte ends a line.
pub open spec fn ends_line(b: u8) -> bool {
    b == 0 || b == 0x0a
}

/// Where the first line ends: at the end of the bytes if nowhere.
pub open spec fn line_len(s: Seq<u8>) -> nat
    decreases s.len(),
{
    if s.len() == 0 || ends_line(s[0]) {
        0
    } else {
        1 + line_len(s.skip(1))
    }
}

/// The entries in some bytes: those of the lines that have ended and are not blank.
pub open spec fn entries_in(s: Seq<u8>) -> Seq<EntryModel>
    decreases s.len(),
{
    let n = line_len(s);
    if n >= s.len() {
        Seq::empty()
    } else {
        let text = trimmed(lossy(s.take(n as int)));
        let rest = entries_in(s.skip(n as int + 1));
        if text.len() == 0 {
            rest
        } else {
            seq![entry_of(text)] + rest
        }
    }
}

/// The bytes of the line that has not ended.
pub open spec fn unended(s: Seq<u8>) -> Seq<u8>
    decreases s.len(),
{
    let n = line_len(s);
    if n >= s.len() {
        s
    } else {
        unended(s.skip(n as int + 1))
    }
}

/// The contents of some entries.
pub open spec fn models(items: Seq<SyslogEntry>) -> Seq<EntryModel> {
    items.map_values(|e: SyslogEntry| e@)
}

proof fn lemma_line_len(s: Seq<u8>)
    ensures
        line_len(s) <= s.len(),
    decreases s.len(),
{
    if s.len() > 0 && !ends_line(s[0]) {
        lemma_line_len(s.skip(1));
    }
}

fn line_end(s: &Vec<u8>, from: usize) -> (end: usize)
    requires
        from <= s@.len(),
    ensures
        from <= end <= s@.len(),
        end - from == line_len(s@.skip(from as int)),
{
    let mut i: usize = from;
    while i < s.len() && s[i] != 0 && s[i] != 0x0a
        invariant
            from <= i <= s@.len(),
            line_len(s@.skip(from as int)) == (i - from) + line_len(s@.skip(i as int)),
        decreases s@.len() - i,
    {
        assert(s@.skip(i as int).skip(1) =~= s@.skip(i + 1));
        i += 1;
    }
    i
}

/// What has come in and has not ended yet.
#[derive(Debug)]
pub struct SyslogClient {
    carry: Vec<u8>,
}

impl SyslogClient {
    /// The bytes of the line that has not ended.
    pub closed spec fn pending(self) -> Seq<u8> {
        self.carry@
    }

    /// Before anything has come in.
    pub fn new() -> (c: SyslogClient)
        ensures
            c.pending() == Seq::<u8>::empty(),
    {
        let carry: Vec<u8> = Vec::new();
        assert(carry@ =~= Seq::<u8>::empty());
        SyslogClient { carry }
    }

    /// Takes in bytes, and hands out the entries that they complete.
    pub fn feed(&mut self, bytes: &[u8]) -> (entries: Vec<SyslogEntry>)
        ensures
            models(entries@) == entries_in(old(self).pending() + bytes@),
            final(self).pending() == unended(old(self).pending() + bytes@),
    {
        put_slice(&mut self.carry, bytes);
        let ghost all = self.carry@;
        let mut entries: Vec<SyslogEntry> = Vec::new();
        let mut pos: usize = 0;
        let mut more: bool = true;
        assert(all.skip(0) =~= all);
        assert(models(entries@) + entries_in(all.skip(0)) =~= entries_in(all));
        while more
            invariant
                all == self.carry@,
                pos <= all.len(),
                models(entries@) + entries_in(all.skip(pos as int)) == entries_in(all),
                unended(all.skip(pos as int)) == unended(all),
                !more ==> line_len(all.skip(pos as int)) >= all.skip(pos as int).len(),
            decreases
                all.len() - pos,
                if more {
                    1int
                } else {
                    0int
                },
        {
            let ghost rest = all.skip(pos as int);
            let ghost before = entries@;
            let end: usize = line_end(&self.carry, pos);
            if end >= self.carry.len() {
                more = false;
            } else {
                let line: Vec<u8> = sub_vec(self.carry.as_slice(), pos, end);
                assert(line@ =~= rest.take(end - pos));
                assert(rest.skip(end - pos + 1) =~= all.skip(end + 1));
                let text: String = trim(utf8_text_lossy(line.as_slice()).as_str());
                if !text.as_str().is_empty() {
                    entries.push(SyslogEntry::parse(text));
                    assert(models(entries@) =~= models(before).push(entry_of(text@)));
                }
                assert(models(entries@) + entries_in(all.skip(end + 1)) =~= models(before)
                    + entries_in(rest));
                pos = end + 1;
            }
        }
        let n: usize = self.carry.len();
        let rest: Vec<u8> = sub_vec(self.carry.as_slice(), pos, n);
        assert(rest@ =~= all.skip(pos as int));
        assert(models(entries@) + entries_in(all.skip(pos as int)) =~= models(entries@));
        self.carry = rest;
        entries
    }
}

proof fn lemma_line_len_more(a: Seq<u8>, b: Seq<u8>)
    requires
        line_len(a) < a.len(),
    ensures
        line_len(a + b) == line_len(a),
    decreases a.len(),
{
    assert((a + b)[0] == a[0]);
    if !ends_line(a[0]) {
        assert((a + b).skip(1) =~= a.skip(1) + b);
        lemma_line_len_more(a.skip(1), b);
    }
}

/// How the bytes are cut into pieces makes no difference to the entries.
pub proof fn lemma_fragmentation(a: Seq<u8>, b: Seq<u8>)
    ensures
        entries_in(a + b) == entries_in(a) + entries_in(unended(a) + b),
        unended(a + b) == unended(unended(a) + b),
    decreases a.len(),
{
    let n = line_len(a);
    lemma_line_len(a);
    if n < a.len() {
        lemma_line_len_more(a, b);
        let tail = a.skip(n as int + 1);
        assert((a + b).skip(n as int + 1) =~= tail + b);
        assert((a + b).take(n as int) =~= a.take(n as int));
        lemma_fragmentation(tail, b);
        assert(entries_in(a + b) =~= entries_in(a) + entries_in(unended(a) + b));
    } else {
        assert(entries_in(a) + entries_in(a + b) =~= entries_in(a + b));
    }
}

/// What happened while entries were handed out.
#[derive(Debug)]
pub enum StreamEvent {
    /// Nothing yet.
    Begin,
    /// Bytes came in.
    Bytes(Vec<u8>),
    /// Whoever got the last entry wants more, or has had enough.
    Taken(bool),
    /// The connection has ended.
    Ended,
}

/// The content of a [`StreamEvent`].
pub enum EventModel {
    Begin,
    Bytes(Seq<u8>),
    Taken(bool),
    Ended,
}

impl View for StreamEvent {
    type V = EventModel;

    open spec fn view(&self) -> EventModel {
        match self {
            StreamEvent::Begin => EventModel::Begin,
            StreamEvent::Bytes(b) => EventModel::Bytes(b@),
            StreamEvent::Taken(more) => EventModel::Taken(*more),
            StreamEvent::Ended => EventModel::Ended,
        }
    }
}

/// What to do next.
#[derive(Debug)]
pub enum StreamAction {
    Read,
    /// Hand out an entry.
    Hand(SyslogEntry),
    /// End with success.
    Finish,
}

/// The content of a [`StreamAction`].
pub enum ActionModel {
    Read,
    Hand(EntryModel),
    Finish,
}

impl View for StreamAction {
    type V = ActionModel;

    open spec fn view(&self) -> ActionModel {
        match self {
            StreamAction::Read => ActionModel::Read,
            StreamAction::Hand(e) => ActionModel::Hand(e@),
            StreamAction::Finish => ActionModel::Finish,
        }
    }
}

/// The state of a stream.
pub struct StreamModel {
    /// The bytes of the line that has not ended.
    pub pending: Seq<u8>,
    /// The entries that are complete and were not handed out, the next one first.
    pub queue: Seq<EntryModel>,
}

/// A stream before anything has come in.
pub open spec fn fresh_stream() -> StreamModel {
    StreamModel { pending: Seq::empty(), queue: Seq::empty() }
}

/// A stream after it has taken an event in.
pub open spec fn took_in(s: StreamModel, event: EventModel) -> StreamModel {
    match event {
        EventModel::Bytes(b) => StreamModel {
            pending: unended(s.pending + b),
            queue: s.queue + entries_in(s.pending + b),
        },
        _ => s,
    }
}

/// The step of a stream. Complete entries are handed out before more is read. Whoever has
/// had enough of them ends the stream, and so does the end of the connection.
pub open spec fn stream_step(s: StreamModel, event: EventModel) -> (StreamModel, ActionModel) {
    let now = took_in(s, event);
    if event is Ended || event == EventModel::Taken(false) {
        (now, ActionModel::Finish)
    } else if now.queue.len() == 0 {
        (now, ActionModel::Read)
    } else {
        (
            StreamModel { pending: now.pending, queue: now.queue.skip(1) },
            ActionModel::Hand(now.queue[0]),
        )
    }
}

/// Entries on their way to whoever wants them.
#[derive(Debug)]
pub struct SyslogStream {
    client: SyslogClient,
    /// The entries that are complete, the next one last.
    ready: Vec<SyslogEntry>,
}

impl View for SyslogStream {
    type V = StreamModel;

    closed spec fn view(&self) -> StreamModel {
        StreamModel { pending: self.client.pending(), queue: models(self.ready@).reverse() }
    }
}

impl SyslogStream {
    /// Before anything has come in.
    pub fn new() -> (s: SyslogStream)
        ensures
            s@ == fresh_stream(),
    {
        let s = SyslogStream { client: SyslogClient::new(), ready: Vec::new() };
        assert(s@.queue =~= Seq::<EntryModel>::empty());
        s
    }

    /// What to do next.
    pub fn next(&mut self, event: StreamEvent) -> (action: StreamAction)
        ensures
            (final(self)@, action@) == stream_step(old(self)@, event@),
    {
        match event {
            StreamEvent::Taken(false) | StreamEvent::Ended => {
                return StreamAction::Finish;
            },
            StreamEvent::Bytes(b) => {
                let mut fresh: Vec<SyslogEntry> = self.client.feed(b.as_slice());
                let ghost whole = models(fresh@);
                let ghost was = self@.queue;
                let mut back: Vec<SyslogEntry> = Vec::new();
                while fresh.len() > 0
                    invariant
                        models(fresh@) + models(back@).reverse() == whole,
                    decreases fresh@.len(),
                {
                    let ghost a = models(fresh@);
                    let ghost b0 = models(back@);
                    if let Some(e) = fresh.pop() {
                        let ghost m = e@;
                        back.push(e);
                        assert(models(fresh@) =~= a.drop_last());
                        assert(models(back@) =~= b0.push(m));
                        assert(models(fresh@) + models(back@).reverse() =~= a + b0.reverse());
                    }
                }
                assert(models(back@).reverse() =~= whole);
                let ghost older = models(self.ready@);
                back.append(&mut self.ready);
                assert(models(back@) =~= whole.reverse() + older);
                self.ready = back;
                assert(self@.queue =~= was + whole);
            },
            _ => {},
        }
        let ghost queue = self@.queue;
        match self.ready.pop() {
            Some(e) => {
                assert(queue[0] == e@);
                assert(self@.queue =~= queue.skip(1));
                StreamAction::Hand(e)
            },
            None => StreamAction::Read,
        }
    }
}

/// The entries that a stream hands out from an event on, where `reads` are the bytes that
/// are still to come before the connection ends, and `said(k)` is whether more is wanted
/// after the `k`-th entry.
pub open spec fn handed_out(
    s: StreamModel,
    event: EventModel,
    reads: Seq<Seq<u8>>,
    calls: nat,
    said: spec_fn(nat) -> bool,
) -> Seq<EntryModel>
    decreases
            reads.len(),
            took_in(s, event).queue.len(),
            if event is Ended {
                0int
            } else {
                1int
            },
{
    let (after, action) = stream_step(s, event);
    match action {
        ActionModel::Finish => Seq::empty(),
        ActionModel::Hand(e) => seq![e] + handed_out(
            after,
            EventModel::Taken(said(calls)),
            reads,
            calls + 1,
            said,
        ),
        ActionModel::Read => if reads.len() == 0 {
            handed_out(after, EventModel::Ended, reads, calls, said)
        } else {
            handed_out(after, EventModel::Bytes(reads[0]), reads.drop_first(), calls, said)
        },
    }
}

/// Entries up to the first after which no more is wanted, and with it.
pub open spec fn until_enough(
    entries: Seq<EntryModel>,
    calls: nat,
    said: spec_fn(nat) -> bool,
) -> Seq<EntryModel>
    decreases entries.len(),
{
    if entries.len() == 0 {
        Seq::empty()
    } else if said(calls) {
        seq![entries[0]] + until_enough(entries.skip(1), calls + 1, said)
    } else {
        seq![entries[0]]
    }
}

proof fn lemma_unended_is_empty(s: Seq<u8>)
    ensures
        entries_in(unended(s)) == Seq::<EntryModel>::empty(),
    decreases s.len(),
{
    lemma_line_len(s);
    let n = line_len(s);
    if n < s.len() {
        lemma_unended_is_empty(s.skip(n as int + 1));
    }
}

proof fn lemma_handed_out(
    s: StreamModel,
    event: EventModel,
    reads: Seq<Seq<u8>>,
    calls: nat,
    said: spec_fn(nat) -> bool,
)
    requires
        entries_in(took_in(s, event).pending) == Seq::<EntryModel>::empty(),
        !(event is Ended),
        event != EventModel::Taken(false),
    ensures
        handed_out(s, event, reads, calls, said) == until_enough(
            took_in(s, event).queue + entries_in(took_in(s, event).pending + reads.flatten()),
            calls,
            said,
        ),
    decreases reads.len(), took_in(s, event).queue.len(),
{
    let (after, action) = stream_step(s, event);
    let queue = took_in(s, event).queue;
    let pending = took_in(s, event).pending;
    let later = entries_in(pending + reads.flatten());
    if queue.len() > 0 {
        assert((queue + later)[0] == queue[0]);
        let taken = EventModel::Taken(said(calls));
        if said(calls) {
            lemma_handed_out(after, taken, reads, calls + 1, said);
            assert((queue + later).skip(1) =~= queue.skip(1) + later);
        } else {
            assert(handed_out(after, taken, reads, calls + 1, said) =~= Seq::empty());
            assert(seq![queue[0]] + Seq::<EntryModel>::empty() =~= seq![queue[0]]);
        }
    } else if reads.len() == 0 {
        assert(reads.flatten() =~= Seq::<u8>::empty());
        assert(pending + reads.flatten() =~= pending);
        assert(queue + later =~= Seq::<EntryModel>::empty());
        assert(handed_out(after, EventModel::Ended, reads, calls, said) =~= Seq::empty());
    } else {
        let all = pending + reads[0];
        let rest = reads.drop_first();
        let came = EventModel::Bytes(reads[0]);
        lemma_unended_is_empty(all);
        assert(took_in(after, came).queue =~= entries_in(all));
        lemma_handed_out(after, came, rest, calls, said);
        lemma_fragmentation(all, rest.flatten());
        assert(reads.flatten() =~= reads[0] + rest.flatten());
        assert(pending + reads.flatten() =~= all + rest.flatten());
        assert(queue + later =~= later);
    }
}

/// A stream hands out the entries of all bytes in order, once each, up to and with the
/// first after which no more is wanted. How the bytes are cut into reads makes no
/// difference.
pub proof fn lemma_streamed(reads: Seq<Seq<u8>>, said: spec_fn(nat) -> bool)
    ensures
        handed_out(fresh_stream(), EventModel::Begin, reads, 0, said) == until_enough(
            entries_in(reads.flatten()),
            0,
            said,
        ),
{
    let none = Seq::<u8>::empty();
    let nothing = Seq::<EntryModel>::empty();
    assert(entries_in(none) =~= nothing);
    lemma_handed_out(fresh_stream(), EventModel::Begin, reads, 0, said);
    assert(none + reads.flatten() =~= reads.flatten());
    assert(nothing + entries_in(reads.flatten()) =~= entries_in(reads.flatten()));
}

/// The bytes of some reads.
pub open spec fn read_bytes(reads: Seq<Vec<u8>>) -> Seq<Seq<u8>> {
    reads.map_values(|b: Vec<u8>| b@)
}

/// What was said after each entry; after the last of the answers more is wanted.
pub open spec fn answered(answers: Seq<bool>) -> spec_fn(nat) -> bool {
    |k: nat| k >= answers.len() || answers[k as int]
}

impl SyslogClient {
    /// Runs a stream over what was read until the connection ended, and hands its entries
    /// out to someone who gives the given answers.
    pub fn stream(reads: &Vec<Vec<u8>>, answers: &Vec<bool>) -> (entries: Vec<SyslogEntry>)
        ensures
            models(entries@) == until_enough(
                entries_in(read_bytes(reads@).flatten()),
                0,
                answered(answers@),
            ),
    {
        let ghost all = read_bytes(reads@);
        let ghost said = answered(answers@);
        let ghost whole = handed_out(fresh_stream(), EventModel::Begin, all, 0, said);
        let mut stream: SyslogStream = SyslogStream::new();
        let mut event: StreamEvent = StreamEvent::Begin;
        let mut entries: Vec<SyslogEntry> = Vec::new();
        let mut used: usize = 0;
        assert(all.skip(0) =~= all);
        assert(models(entries@) + whole =~= whole);
        loop
            invariant_except_break
                models(entries@) + handed_out(
                    stream@,
                    event@,
                    all.skip(used as int),
                    entries@.len(),
                    said,
                ) == whole,
            invariant
                all == read_bytes(reads@),
                said == answered(answers@),
                used <= reads@.len(),
            ensures
                models(entries@) == whole,
            decreases
                reads@.len() - used,
                took_in(stream@, event@).queue.len(),
                if event@ is Ended {
                    0int
                } else {
                    1int
                },
        {
            let ghost rest = all.skip(used as int);
            let ghost before = models(entries@);
            match stream.next(event) {
                StreamAction::Finish => {
                    assert(before + Seq::<EntryModel>::empty() =~= before);
                    break;
                },
                StreamAction::Hand(e) => {
                    let n: usize = entries.len();
                    let more: bool = if n < answers.len() {
                        answers[n]
                    } else {
                        true
                    };
                    let ghost model = e@;
                    entries.push(e);
                    event = StreamEvent::Taken(more);
                    proof {
                        let tail = handed_out(stream@, event@, rest, entries@.len(), said);
                        assert(models(entries@) =~= before.push(model));
                        assert(before + (seq![model] + tail) =~= models(entries@) + tail);
                    }
                },
                StreamAction::Read => {
                    if used < reads.len() {
                        assert(rest[0] == reads@[used as int]@);
                        assert(rest.drop_first() =~= all.skip(used + 1));
                        event = StreamEvent::Bytes(copy_bytes(reads[used].as_slice()));
                        used += 1;
                    } else {
                        event = StreamEvent::Ended;
                    }
                },
            }
        }
        proof {
            lemma_streamed(all, said);
        }
        entries
    }
}

/// The time of a line of at least three words is its month, its day and its time, with one
/// blank between each two. A day of one character gets a blank in front, and a longer one
/// stands as it is. A line without words has no time.
pub proof fn lemma_timestamp(raw: Seq<char>)
    ensures
        words(raw).len() == 0 ==> entry_of(raw).timestamp == Seq::<char>::empty(),
        words(raw).len() >= 3 ==> {
            let ws = words(raw);
            let time = entry_of(raw).timestamp;
            &&& words(time) == ws.take(3)
            &&& ws[1].len() >= 2 ==> time == ws[0] + seq![' '] + ws[1] + seq![' '] + ws[2]
            &&& ws[1].len() == 1 ==> time == ws[0] + seq![' ', ' '] + ws[1] + seq![' '] + ws[2]
            &&& time.len() == ws[0].len() + ws[2].len() + 2 + if ws[1].len() > 2 {
                ws[1].len()
            } else {
                2
            }
        },
{
    let ws = words(raw);
    let time = entry_of(raw).timestamp;
    if ws.len() >= 3 {
        lemma_words_are_words(raw, 0);
        lemma_words_are_words(raw, 1);
        lemma_words_are_words(raw, 2);
        lemma_one_word(ws[0]);
        lemma_one_word(ws[1]);
        lemma_one_word(ws[2]);
        let none = Seq::<char>::empty();
        lemma_one_word(none);
        assert(words(none) =~= Seq::<Seq<char>>::empty());
        lemma_words_part(ws[1], ' ', ws[2]);
        let back = ws[1] + seq![' '] + ws[2];
        if ws[1].len() == 1 {
            lemma_words_part(none, ' ', back);
            let padded = none + seq![' '] + back;
            lemma_words_part(ws[0], ' ', padded);
            assert(time =~= ws[0] + seq![' '] + padded);
            assert(time =~= ws[0] + seq![' ', ' '] + ws[1] + seq![' '] + ws[2]);
        } else {
            lemma_words_part(ws[0], ' ', back);
            assert(time =~= ws[0] + seq![' '] + back);
            assert(time =~= ws[0] + seq![' '] + ws[1] + seq![' '] + ws[2]);
        }
        assert(words(time) =~= ws.take(3));
    }
}

/// The process of a line is its fifth word. What follows it is a level in angle brackets
/// and, behind a colon, the message; or the message alone. The words of the line are kept.
pub proof fn lemma_entry_parts(raw: Seq<char>)
    ensures
        entry_of(raw).raw == raw,
        words(raw).len() >= 5 ==> entry_of(raw).process == words(raw)[4],
        words(raw).len() < 5 ==> entry_of(raw).process == Seq::<char>::empty(),
        words(raw).len() <= 5 ==> entry_of(raw).level == Seq::<char>::empty() && entry_of(
            raw,
        ).message == Seq::<char>::empty(),
        words(raw).len() > 5 ==> {
            let e = entry_of(raw);
            let tail = spaced(words(raw).skip(5));
            &&& words(tail) == words(raw).skip(5)
            &&& if tail[0] == '<' && tail.contains('>') {
                &&& !e.level.contains('>')
                &&& !(e.message.len() >= 2 && e.message[0] == ':' && e.message[1] == ' ')
                &&& exists|colons: Seq<char>|
                    tail == seq!['<'] + e.level + seq!['>'] + #[trigger] colons_of(colons)
                        + e.message
            } else {
                e.level == Seq::<char>::empty() && e.message == tail
            }
        },
{
    let ws = words(raw);
    let e = entry_of(raw);
    if ws.len() > 5 {
        let rest = ws.skip(5);
        assert forall|i: int, j: int| 0 <= i < rest.len() && 0 <= j < rest[i].len() implies !white(
            #[trigger] rest[i][j],
        ) by {
            lemma_words_are_words(raw, i + 5);
            assert(rest[i] == ws[i + 5]);
            assert(!white(words(raw)[i + 5][j]));
        }
        assert forall|i: int| 0 <= i < rest.len() implies (#[trigger] rest[i]).len() > 0 by {
            lemma_words_are_words(raw, i + 5);
        }
        lemma_spaced(rest);
        let tail = spaced(rest);
        if tail.len() == 0 {
            assert(words(tail) =~= Seq::<Seq<char>>::empty());
        }
        let inner = tail.skip(1);
        crate::text::lemma_first_of(inner, '>');
        let n = first_of(inner, '>') as int;
        if tail[0] == '<' && tail.contains('>') {
            let k = choose|k: int| 0 <= k < tail.len() && tail[k] == '>';
            assert(k > 0);
            assert(inner[k - 1] == '>');
            assert(n < inner.len());
            let back = tail.skip(n + 2);
            lemma_after_colons(back);
            let colons = back.take(back.len() - after_colons(back).len());
            assert(colons_of(colons) == colons);
            assert(tail =~= seq!['<'] + e.level + seq!['>'] + colons_of(colons) + e.message);
            assert forall|i: int| 0 <= i < e.level.len() implies e.level[i] != '>' by {
                assert(e.level[i] == inner[i]);
            }
        } else if tail[0] == '<' {
            if n < inner.len() {
                assert(tail[n + 1] == '>');
            }
        }
    }
}

/// Some characters, if they are nothing but colons with a blank behind each, and else none.
pub open spec fn colons_of(s: Seq<char>) -> Seq<char> {
    if s.len() % 2 == 0 && forall|i: int|
        0 <= i < s.len() ==> #[trigger] s[i] == if i % 2 == 0 {
            ':'
        } else {
            ' '
        } {
        s
    } else {
        Seq::empty()
    }
}

proof fn lemma_after_colons(s: Seq<char>)
    ensures
        after_colons(s).len() <= s.len(),
        ({
            let a = after_colons(s);
            let c = s.take(s.len() - a.len());
            &&& s.skip(s.len() - a.len()) == a
            &&& !(a.len() >= 2 && a[0] == ':' && a[1] == ' ')
            &&& colons_of(c) == c
        }),
    decreases s.len(),
{
    let a = after_colons(s);
    if s.len() >= 2 && s[0] == ':' && s[1] == ' ' {
        let rest = s.skip(2);
        lemma_after_colons(rest);
        let c = s.take(s.len() - a.len());
        let d = rest.take(rest.len() - a.len());
        assert(s.skip(s.len() - a.len()) =~= rest.skip(rest.len() - a.len()));
        if d.len() == 0 {
            assert(c.len() == 2);
        }
        assert(d.len() % 2 == 0 && forall|i: int|
            0 <= i < d.len() ==> #[trigger] d[i] == if i % 2 == 0 {
                ':'
            } else {
                ' '
            }) by {
            if !(d.len() % 2 == 0 && forall|i: int|
                0 <= i < d.len() ==> #[trigger] d[i] == if i % 2 == 0 {
                    ':'
                } else {
                    ' '
                }) {
                assert(d.len() == 0);
            }
        }
        assert forall|i: int| 0 <= i < c.len() implies #[trigger] c[i] == if i % 2 == 0 {
            ':'
        } else {
            ' '
        } by {
            if i >= 2 {
                assert(c[i] == d[i - 2]);
            }
        }
    } else {
        assert(s.skip(0) =~= s);
        assert(s.take(0) =~= Seq::<char>::empty());
    }
}

/// A zero or a line feed, and nothing else, ends a line. What stands before it is one entry,
/// unless it is blank.
pub proof fn lemma_line_ends(line: Seq<u8>, end: u8)
    requires
        forall|i: int| 0 <= i < line.len() ==> (#[trigger] line[i]) != 0 && line[i] != 10,
    ensures
        entries_in(line) == Seq::<EntryModel>::empty(),
        unended(line) == line,
        end == 0 || end == 10 ==> {
            let text = trimmed(lossy(line));
            &&& unended(line.push(end)) == Seq::<u8>::empty()
            &&& entries_in(line.push(end)) == if text.len() == 0 {
                Seq::<EntryModel>::empty()
            } else {
                seq![entry_of(text)]
            }
        },
{
    lemma_no_end(line);
    let whole = line.push(end);
    if end == 0 || end == 10 {
        lemma_end_at(whole, line.len() as int);
        assert(whole.take(line.len() as int) =~= line);
        let rest = whole.skip(line.len() as int + 1);
        assert(rest =~= Seq::<u8>::empty());
        assert(entries_in(rest) =~= Seq::<EntryModel>::empty());
        assert(unended(rest) =~= Seq::<u8>::empty());
        let text = trimmed(lossy(line));
        if text.len() > 0 {
            assert(entries_in(whole) =~= seq![entry_of(text)]);
        }
    }
}

proof fn lemma_no_end(s: Seq<u8>)
    requires
        forall|i: int| 0 <= i < s.len() ==> (#[trigger] s[i]) != 0 && s[i] != 10,
    ensures
        line_len(s) == s.len(),
    decreases s.len(),
{
    if s.len() > 0 {
        let rest = s.skip(1);
        assert(s[0] != 0 && s[0] != 10);
        assert forall|i: int| 0 <= i < rest.len() implies (#[trigger] rest[i]) != 0 && rest[i]
            != 10 by {
            assert(s[i + 1] != 0 && s[i + 1] != 10);
        }
        lemma_no_end(rest);
    }
}

proof fn lemma_end_at(s: Seq<u8>, n: int)
    requires
        0 <= n < s.len(),
        s[n] == 0 || s[n] == 10,
        forall|i: int| 0 <= i < n ==> (#[trigger] s[i]) != 0 && s[i] != 10,
    ensures
        line_len(s) == n,
    decreases n,
{
    if n > 0 {
        let rest = s.skip(1);
        assert(s[0] != 0 && s[0] != 10);
        assert forall|i: int| 0 <= i < n - 1 implies (#[trigger] rest[i]) != 0 && rest[i] != 10 by {
            assert(s[i + 1] != 0 && s[i + 1] != 10);
        }
        lemma_end_at(rest, n - 1);
    }
}

/// Entries are handed out from the first on. Each but the last was followed by a wish for
/// more, and if any were left the last was not.
pub proof fn lemma_until_enough(
    entries: Seq<EntryModel>,
    calls: nat,
    said: spec_fn(nat) -> bool,
)
    ensures
        ({
            let got = until_enough(entries, calls, said);
            &&& got.len() <= entries.len()
            &&& got == entries.take(got.len() as int)
            &&& entries.len() > 0 ==> got.len() > 0
            &&& forall|k: nat| calls <= k < calls + got.len() - 1 ==> #[trigger] said(k)
            &&& got.len() < entries.len() ==> !said((calls + got.len() - 1) as nat)
        }),
    decreases entries.len(),
{
    let got = until_enough(entries, calls, said);
    if entries.len() == 0 {
        assert(got =~= entries.take(0));
    } else if said(calls) {
        let rest = entries.skip(1);
        lemma_until_enough(rest, calls + 1, said);
        let back = until_enough(rest, calls + 1, said);
        assert(got =~= entries.take(got.len() as int));
        assert forall|k: nat| calls <= k < calls + got.len() - 1 implies #[trigger] said(k) by {
            if k > calls {
                assert(said(k));
            }
        }
    } else {
        assert(got =~= entries.take(1));
    }
}

/// A word is found by its place, the first at none; past the last there is only the empty
/// one.
pub proof fn lemma_word_at(ws: Seq<Seq<char>>, w: Seq<char>, i: int)
    ensures
        word_at(seq![w], 0) == w,
        0 <= i < ws.len() ==> word_at(ws, i) == ws[i],
        i >= ws.len() ==> word_at(ws, i).len() == 0,
{
}

} // verus!
