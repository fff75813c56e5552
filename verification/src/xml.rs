//! A nesting-safe, streaming XML element writer.
//!
//! The writer is modelled by the sequence of [`XmlEvent`]s it has emitted and
//! the stack of elements that are currently open. The output text is always
//! the rendering of the events, and every public operation leaves the stack of
//! open elements as it found it, whether it succeeds or fails.

use vstd::prelude::*;
use vstd::string::*;
use crate::text::{chars_of, push_char};

verus! {

/// One unit of XML output.
pub enum XmlEvent {
    /// A start tag `<name>`.
    Open(Seq<char>),
    /// Character data, stored unescaped.
    Text(Seq<char>),
    /// An end tag `</name>`.
    Close(Seq<char>),
}

/// Why the writer refused to write.
#[derive(Clone, Copy, Debug, PartialEq, Eq, Structural)]
pub enum XmlError {
    /// The element name is not a valid XML name.
    InvalidName,
}

/// Characters that may start an element name.
pub open spec fn name_start(c: char) -> bool {
    ('a' <= c && c <= 'z') || ('A' <= c && c <= 'Z') || c == '_'
}

/// Characters that may appear anywhere in an element name.
pub open spec fn name_char(c: char) -> bool {
    name_start(c) || ('0' <= c && c <= '9') || c == '-' || c == '.'
}

/// An element name: non-empty, starting with a letter or underscore, and
/// made of letters, digits, `-`, `_` and `.` only.
pub open spec fn valid_name(name: Seq<char>) -> bool {
    &&& name.len() > 0
    &&& name_start(name[0])
    &&& forall|i: int| 0 <= i < name.len() ==> name_char(#[trigger] name[i])
}

/// The escaped form of one character of text.
pub open spec fn escape_char(c: char) -> Seq<char> {
    if c == '&' {
        seq!['&', 'a', 'm', 'p', ';']
    } else if c == '<' {
        seq!['&', 'l', 't', ';']
    } else if c == '>' {
        seq!['&', 'g', 't', ';']
    } else {
        seq![c]
    }
}

/// The escaped form of a text: each character escaped, in order.
pub open spec fn escape(text: Seq<char>) -> Seq<char>
    decreases text.len(),
{
    if text.len() == 0 {
        Seq::empty()
    } else {
        escape(text.drop_last()) + escape_char(text.last())
    }
}

/// `<name>`
pub open spec fn open_tag(name: Seq<char>) -> Seq<char> {
    seq!['<'] + name + seq!['>']
}

/// `</name>`
pub open spec fn close_tag(name: Seq<char>) -> Seq<char> {
    seq!['<', '/'] + name + seq!['>']
}

/// The text of one event.
pub open spec fn render_event(e: XmlEvent) -> Seq<char> {
    match e {
        XmlEvent::Open(name) => open_tag(name),
        XmlEvent::Text(text) => escape(text),
        XmlEvent::Close(name) => close_tag(name),
    }
}

/// The text of a sequence of events: the texts of the events, concatenated.
pub open spec fn render(events: Seq<XmlEvent>) -> Seq<char>
    decreases events.len(),
{
    if events.len() == 0 {
        Seq::empty()
    } else {
        render(events.drop_last()) + render_event(events.last())
    }
}

/// The effect of one event on the stack of open elements; `None` when the
/// event is not allowed there.
pub open spec fn nest_step(stack: Option<Seq<Seq<char>>>, e: XmlEvent) -> Option<Seq<Seq<char>>> {
    match stack {
        None => None,
        Some(open) => match e {
            XmlEvent::Open(name) => if valid_name(name) {
                Some(open.push(name))
            } else {
                None
            },
            XmlEvent::Text(_) => if open.len() > 0 {
                Some(open)
            } else {
                None
            },
            XmlEvent::Close(name) => if open.len() > 0 && open.last() == name {
                Some(open.drop_last())
            } else {
                None
            },
        },
    }
}

/// The stack of open elements after `events`, starting from `stack`.
pub open spec fn nest_from(stack: Option<Seq<Seq<char>>>, events: Seq<XmlEvent>) -> Option<
    Seq<Seq<char>>,
>
    decreases events.len(),
{
    if events.len() == 0 {
        stack
    } else {
        nest_step(nest_from(stack, events.drop_last()), events.last())
    }
}

/// The stack of open elements after `events`, starting with none open.
/// `None` when some end tag does not match the innermost open element, some
/// name is invalid, or text stands outside every element.
pub open spec fn nest(events: Seq<XmlEvent>) -> Option<Seq<Seq<char>>> {
    nest_from(Some(Seq::empty()), events)
}

/// Every open element has been closed, innermost first.
pub open spec fn balanced(events: Seq<XmlEvent>) -> bool {
    nest(events) == Some(Seq::<Seq<char>>::empty())
}

/// Whether the event at position `i` is a text.
pub open spec fn text_at(events: Seq<XmlEvent>, i: int) -> bool {
    0 <= i < events.len() && events[i] is Text
}

/// Every text is non-empty and stands directly between a start tag and an
/// end tag.
pub open spec fn texts_enclosed(events: Seq<XmlEvent>) -> bool {
    forall|i: int| #[trigger]
        text_at(events, i) ==> {
            &&& events[i]->Text_0.len() > 0
            &&& 0 < i
            &&& events[i - 1] is Open
            &&& i + 1 < events.len()
            &&& events[i + 1] is Close
        }
}

/// The events of a leaf element `<name>text</name>`. An empty text leaves
/// no text event between the tags.
pub open spec fn leaf(name: Seq<char>, text: Seq<char>) -> Seq<XmlEvent> {
    if text.len() == 0 {
        seq![XmlEvent::Open(name), XmlEvent::Close(name)]
    } else {
        seq![XmlEvent::Open(name), XmlEvent::Text(text), XmlEvent::Close(name)]
    }
}

/// The events of an element `name` around `inner`.
pub open spec fn element(name: Seq<char>, inner: Seq<XmlEvent>) -> Seq<XmlEvent> {
    seq![XmlEvent::Open(name)] + inner + seq![XmlEvent::Close(name)]
}

/// Rendering distributes over concatenation.
pub proof fn lemma_render_concat(a: Seq<XmlEvent>, b: Seq<XmlEvent>)
    ensures
        render(a + b) == render(a) + render(b),
    decreases b.len(),
{
    if b.len() == 0 {
        assert(a + b =~= a);
        assert(render(a) + render(b) =~= render(a));
    } else {
        lemma_render_concat(a, b.drop_last());
        assert((a + b).drop_last() =~= a + b.drop_last());
        assert((a + b).last() == b.last());
        assert(render(a + b) =~= render(a) + render(b));
    }
}

/// Walking a concatenation is walking its parts in turn.
pub proof fn lemma_nest_concat(stack: Option<Seq<Seq<char>>>, a: Seq<XmlEvent>, b: Seq<XmlEvent>)
    ensures
        nest_from(stack, a + b) == nest_from(nest_from(stack, a), b),
    decreases b.len(),
{
    if b.len() == 0 {
        assert(a + b =~= a);
    } else {
        lemma_nest_concat(stack, a, b.drop_last());
        assert((a + b).drop_last() =~= a + b.drop_last());
        assert((a + b).last() == b.last());
    }
}

/// Whether `c` may start an element name.
pub fn is_name_start(c: char) -> (r: bool)
    ensures
        r == name_start(c),
{
    ('a' <= c && c <= 'z') || ('A' <= c && c <= 'Z') || c == '_'
}

/// Whether `c` may appear in an element name.
pub fn is_name_char(c: char) -> (r: bool)
    ensures
        r == name_char(c),
{
    is_name_start(c) || ('0' <= c && c <= '9') || c == '-' || c == '.'
}

/// Whether `name` is a valid element name.
pub fn is_valid_name(name: &str) -> (r: bool)
    ensures
        r == valid_name(name@),
{
    let chars = chars_of(name);
    if chars.len() == 0 || !is_name_start(chars[0]) {
        return false;
    }
    let mut i: usize = 0;
    while i < chars.len()
        invariant
            i <= chars.len(),
            chars@ == name@,
            forall|j: int| 0 <= j < i ==> name_char(#[trigger] chars@[j]),
        decreases chars.len() - i,
    {
        if !is_name_char(chars[i]) {
            return false;
        }
        i += 1;
    }
    true
}

/// Something that writes the children of an element.
///
/// What it writes and whether it succeeds are functions of the value alone,
/// so the same value always yields the same output.
pub trait XmlBody {
    /// The events that `write_to` appends, up to and including a failure.
    spec fn written(&self) -> Seq<XmlEvent>;

    /// What `write_to` returns.
    spec fn outcome(&self) -> Result<(), XmlError>;

    /// Appends `self.written()` to the writer and leaves the same elements
    /// open as before.
    fn write_to(&self, w: &mut XmlWriter) -> (r: Result<(), XmlError>)
        requires
            old(w).wf(),
        ensures
            final(w).wf(),
            final(w).open_elements() == old(w).open_elements(),
            final(w).events() == old(w).events() + self.written(),
            r == self.outcome(),
    ;
}

/// The events of `open_close(name, body)`.
pub open spec fn open_close_written<B: XmlBody>(name: Seq<char>, body: &B) -> Seq<XmlEvent> {
    if valid_name(name) {
        element(name, body.written())
    } else {
        Seq::empty()
    }
}

/// The result of `open_close(name, body)`.
pub open spec fn open_close_outcome<B: XmlBody>(name: Seq<char>, body: &B) -> Result<(), XmlError> {
    if valid_name(name) {
        body.outcome()
    } else {
        Err(XmlError::InvalidName)
    }
}

/// The events of `optional_element(name, value)`.
pub open spec fn optional_element_written(name: Seq<char>, value: Option<Seq<char>>) -> Seq<
    XmlEvent,
> {
    match value {
        Some(text) if valid_name(name) => leaf(name, text),
        _ => Seq::empty(),
    }
}

/// The result of `optional_element(name, value)`.
pub open spec fn optional_element_outcome(name: Seq<char>, value: Option<Seq<char>>) -> Result<
    (),
    XmlError,
> {
    if value is Some && !valid_name(name) {
        Err(XmlError::InvalidName)
    } else {
        Ok(())
    }
}

/// The events of `optional_nested(name, value)`.
pub open spec fn optional_nested_written<B: XmlBody>(name: Seq<char>, value: Option<B>) -> Seq<
    XmlEvent,
> {
    match value {
        Some(body) => open_close_written(name, &body),
        None => Seq::empty(),
    }
}

/// The result of `optional_nested(name, value)`.
pub open spec fn optional_nested_outcome<B: XmlBody>(name: Seq<char>, value: Option<B>) -> Result<
    (),
    XmlError,
> {
    match value {
        Some(body) => open_close_outcome(name, &body),
        None => Ok(()),
    }
}

/// The result of `sequence_element(name, items)`: the first failure among
/// the items, in order, or success.
pub open spec fn sequence_outcome<B: XmlBody>(name: Seq<char>, items: Seq<B>) -> Result<
    (),
    XmlError,
>
    decreases items.len(),
{
    if items.len() == 0 {
        Ok(())
    } else if sequence_outcome(name, items.drop_last()) is Err {
        sequence_outcome(name, items.drop_last())
    } else {
        open_close_outcome(name, &items.last())
    }
}

/// The events of `sequence_element(name, items)`: one element per item, in
/// the order of `items`, up to and including the first that fails.
pub open spec fn sequence_written<B: XmlBody>(name: Seq<char>, items: Seq<B>) -> Seq<XmlEvent>
    decreases items.len(),
{
    if items.len() == 0 {
        Seq::empty()
    } else if sequence_outcome(name, items.drop_last()) is Err {
        sequence_written(name, items.drop_last())
    } else {
        sequence_written(name, items.drop_last()) + open_close_written(name, &items.last())
    }
}

/// A streaming XML writer over a growable text buffer.
pub struct XmlWriter {
    buf: String,
    events: Ghost<Seq<XmlEvent>>,
    open: Ghost<Seq<Seq<char>>>,
}

/// The largest initial capacity the writer reserves; a larger hint is
/// treated as this one.
pub const MAX_CAPACITY_HINT: usize = 65536;

/// A new empty string with room for `capacity` bytes.
///
/// Trusted: wraps `String::with_capacity`, which std documents as creating
/// an empty string. The bound keeps the request far below the sizes for which
/// std documents a capacity-overflow panic.
#[verifier::external_body]
fn string_with_capacity(capacity: usize) -> (s: String)
    requires
        capacity <= MAX_CAPACITY_HINT,
    ensures
        s@ == Seq::<char>::empty(),
{
    String::with_capacity(capacity)
}

impl XmlWriter {
    /// The events written so far.
    pub closed spec fn events(&self) -> Seq<XmlEvent> {
        self.events@
    }

    /// The elements that are open, outermost first.
    pub closed spec fn open_elements(&self) -> Seq<Seq<char>> {
        self.open@
    }

    /// The text written so far.
    pub closed spec fn text(&self) -> Seq<char> {
        self.buf@
    }

    /// The text is the rendering of the events, the events nest properly and
    /// leave exactly `open_elements()` open, and every text is enclosed in a
    /// leaf element.
    pub open spec fn wf(&self) -> bool {
        &&& self.text() == render(self.events())
        &&& nest(self.events()) == Some(self.open_elements())
        &&& texts_enclosed(self.events())
    }

    /// An empty writer. `capacity_hint` sizes the buffer's first allocation;
    /// it does not limit the output.
    pub fn new(capacity_hint: usize) -> (w: XmlWriter)
        ensures
            w.wf(),
            w.events() == Seq::<XmlEvent>::empty(),
            w.open_elements() == Seq::<Seq<char>>::empty(),
    {
        let capacity = if capacity_hint > MAX_CAPACITY_HINT {
            MAX_CAPACITY_HINT
        } else {
            capacity_hint
        };
        XmlWriter {
            buf: string_with_capacity(capacity),
            events: Ghost(Seq::empty()),
            open: Ghost(Seq::empty()),
        }
    }

    /// The text written so far, read without consuming the writer.
    pub fn as_str(&self) -> (s: &str)
        ensures
            s@ == self.text(),
    {
        self.buf.as_str()
    }

    /// Ends writing and hands out the text.
    pub fn finish(self) -> (s: String)
        ensures
            s@ == self.text(),
    {
        self.buf
    }

    fn push_open(&mut self, name: &str)
        requires
            old(self).wf(),
            valid_name(name@),
        ensures
            final(self).wf(),
            final(self).events() == old(self).events().push(XmlEvent::Open(name@)),
            final(self).open_elements() == old(self).open_elements().push(name@),
    {
        self.buf.append("<");
        self.buf.append(name);
        self.buf.append(">");
        proof {
            reveal_strlit("<");
            reveal_strlit(">");
            let before = self.events@;
            let after = before.push(XmlEvent::Open(name@));
            assert(after.drop_last() =~= before);
            assert(self.buf@ =~= render(before) + open_tag(name@));
            lemma_push_tag_enclosed(before, XmlEvent::Open(name@));
            self.events = Ghost(after);
            self.open = Ghost(self.open@.push(name@));
        }
    }

    fn push_close(&mut self, name: &str)
        requires
            old(self).wf(),
            old(self).open_elements().len() > 0,
            old(self).open_elements().last() == name@,
            old(self).events().len() > 0,
            !(old(self).events().last() is Text),
        ensures
            final(self).wf(),
            final(self).events() == old(self).events().push(XmlEvent::Close(name@)),
            final(self).open_elements() == old(self).open_elements().drop_last(),
    {
        self.buf.append("</");
        self.buf.append(name);
        self.buf.append(">");
        proof {
            reveal_strlit("</");
            reveal_strlit(">");
            let before = self.events@;
            let after = before.push(XmlEvent::Close(name@));
            assert(after.drop_last() =~= before);
            assert(self.buf@ =~= render(before) + close_tag(name@));
            lemma_push_tag_enclosed(before, XmlEvent::Close(name@));
            self.events = Ghost(after);
            self.open = Ghost(self.open@.drop_last());
        }
    }

    fn push_leaf(&mut self, name: &str, text: &str)
        requires
            old(self).wf(),
            valid_name(name@),
        ensures
            final(self).wf(),
            final(self).events() == old(self).events() + leaf(name@, text@),
            final(self).open_elements() == old(self).open_elements(),
    {
        self.buf.append("<");
        self.buf.append(name);
        self.buf.append(">");
        append_escaped(&mut self.buf, text);
        self.buf.append("</");
        self.buf.append(name);
        self.buf.append(">");
        proof {
            reveal_strlit("<");
            reveal_strlit("</");
            reveal_strlit(">");
            lemma_leaf(self.events@, self.open@, name@, text@);
            assert(self.buf@ =~= render(self.events@) + open_tag(name@) + escape(text@) + close_tag(
                name@,
            ));
            self.events = Ghost(self.events@ + leaf(name@, text@));
        }
    }

    /// Writes `<name>`, then the children that `body` writes, then
    /// `</name>`. The end tag is written whether or not `body` succeeds, and
    /// the result of `body` is handed back. With an invalid name nothing is
    /// written and `body` is not invoked.
    pub fn open_close<B: XmlBody>(&mut self, name: &str, body: &B) -> (r: Result<(), XmlError>)
        requires
            old(self).wf(),
        ensures
            final(self).wf(),
            final(self).open_elements() == old(self).open_elements(),
            final(self).events() == old(self).events() + open_close_written(name@, body),
            r == open_close_outcome(name@, body),
    {
        if !is_valid_name(name) {
            assert(self.events@ + Seq::<XmlEvent>::empty() =~= self.events@);
            return Err(XmlError::InvalidName);
        }
        let ghost before = self.events@;
        let ghost stack = self.open@;
        self.push_open(name);
        let r = body.write_to(self);
        proof {
            let inner = body.written();
            if inner.len() > 0 {
                assert((self.events@)[self.events@.len() - 1] == inner[inner.len() - 1]);
                lemma_last_not_text(self.events@);
            }
        }
        self.push_close(name);
        proof {
            assert(self.events@ =~= before + element(name@, body.written()));
            assert(stack.push(name@).drop_last() =~= stack);
        }
        r
    }

    /// Writes `<name>text</name>` when `value` holds a text, escaped as
    /// character data, and nothing at all when it holds none.
    pub fn optional_element(&mut self, name: &str, value: &Option<String>) -> (r: Result<
        (),
        XmlError,
    >)
        requires
            old(self).wf(),
        ensures
            final(self).wf(),
            final(self).open_elements() == old(self).open_elements(),
            final(self).events() == old(self).events() + optional_element_written(
                name@,
                option_text(*value),
            ),
            r == optional_element_outcome(name@, option_text(*value)),
    {
        match value {
            None => {
                assert(self.events@ + Seq::<XmlEvent>::empty() =~= self.events@);
                Ok(())
            },
            Some(text) => {
                if !is_valid_name(name) {
                    assert(self.events@ + Seq::<XmlEvent>::empty() =~= self.events@);
                    return Err(XmlError::InvalidName);
                }
                self.push_leaf(name, text.as_str());
                Ok(())
            },
        }
    }

    /// Like `open_close`, but writes nothing at all when `value` holds no
    /// value.
    pub fn optional_nested<B: XmlBody>(&mut self, name: &str, value: &Option<B>) -> (r: Result<
        (),
        XmlError,
    >)
        requires
            old(self).wf(),
        ensures
            final(self).wf(),
            final(self).open_elements() == old(self).open_elements(),
            final(self).events() == old(self).events() + optional_nested_written(name@, *value),
            r == optional_nested_outcome(name@, *value),
    {
        match value {
            None => {
                assert(self.events@ + Seq::<XmlEvent>::empty() =~= self.events@);
                Ok(())
            },
            Some(body) => self.open_close(name, body),
        }
    }

    /// Writes one element `name` per item, in the order of `items`, each
    /// around the children that the item writes. Stops at the first item that
    /// fails and hands its error back.
    pub fn sequence_element<B: XmlBody>(&mut self, name: &str, items: &Vec<B>) -> (r: Result<
        (),
        XmlError,
    >)
        requires
            old(self).wf(),
        ensures
            final(self).wf(),
            final(self).open_elements() == old(self).open_elements(),
            final(self).events() == old(self).events() + sequence_written(name@, items@),
            r == sequence_outcome(name@, items@),
    {
        let ghost before = self.events@;
        let ghost stack = self.open@;
        let mut i: usize = 0;
        assert(items@.take(0) =~= Seq::<B>::empty());
        assert(before + Seq::<XmlEvent>::empty() =~= before);
        while i < items.len()
            invariant
                i <= items.len(),
                self.wf(),
                stack == old(self).open_elements(),
                before == old(self).events(),
                self.open_elements() == stack,
                self.events() == before + sequence_written(name@, items@.take(i as int)),
                sequence_outcome(name@, items@.take(i as int)) is Ok,
            decreases items.len() - i,
        {
            proof {
                lemma_sequence_step(name@, items@, i as int);
            }
            let r = self.open_close(name, &items[i]);
            assert(self.events@ =~= before + sequence_written(name@, items@.take(i + 1)));
            if r.is_err() {
                proof {
                    lemma_sequence_stops(name@, items@, i + 1);
                }
                return r;
            }
            i += 1;
        }
        assert(items@.take(i as int) =~= items@);
        assert(sequence_outcome(name@, items@)->Ok_0 == ());
        Ok(())
    }
}

/// The text held by an optional string.
pub open spec fn option_text(value: Option<String>) -> Option<Seq<char>> {
    match value {
        Some(s) => Some(s@),
        None => None,
    }
}

/// Appends the escaped form of `text` to `buf`.
fn append_escaped(buf: &mut String, text: &str)
    ensures
        final(buf)@ == old(buf)@ + escape(text@),
{
    let chars = chars_of(text);
    let ghost start = buf@;
    let mut i: usize = 0;
    assert(chars@.take(0) =~= Seq::<char>::empty());
    assert(start + Seq::<char>::empty() =~= start);
    while i < chars.len()
        invariant
            i <= chars.len(),
            chars@ == text@,
            buf@ == start + escape(chars@.take(i as int)),
        decreases chars.len() - i,
    {
        let c = chars[i];
        let ghost done = chars@.take(i as int);
        let ghost next = chars@.take(i + 1);
        assert(next.drop_last() =~= done);
        assert(next.last() == c);
        if c == '&' {
            proof {
                reveal_strlit("&amp;");
            }
            buf.append("&amp;");
            assert(buf@ =~= start + escape(next));
        } else if c == '<' {
            proof {
                reveal_strlit("&lt;");
            }
            buf.append("&lt;");
            assert(buf@ =~= start + escape(next));
        } else if c == '>' {
            proof {
                reveal_strlit("&gt;");
            }
            buf.append("&gt;");
            assert(buf@ =~= start + escape(next));
        } else {
            push_char(buf, c);
            assert(buf@ =~= start + escape(next));
        }
        i += 1;
    }
    assert(chars@.take(i as int) =~= chars@);
}

/// In a sequence whose texts are all enclosed, the last event is no text.
proof fn lemma_last_not_text(events: Seq<XmlEvent>)
    requires
        texts_enclosed(events),
        events.len() > 0,
    ensures
        !(events.last() is Text),
{
    let i = events.len() - 1;
    if events[i] is Text {
        assert(text_at(events, i));
    }
}

/// Appending a start tag or an end tag keeps every text enclosed, unless the
/// tag would follow a text.
proof fn lemma_push_tag_enclosed(events: Seq<XmlEvent>, tag: XmlEvent)
    requires
        texts_enclosed(events),
        !(tag is Text),
    ensures
        texts_enclosed(events.push(tag)),
{
    let after = events.push(tag);
    assert forall|i: int| #[trigger] text_at(after, i) implies {
        &&& after[i]->Text_0.len() > 0
        &&& 0 < i
        &&& after[i - 1] is Open
        &&& i + 1 < after.len()
        &&& after[i + 1] is Close
    } by {
        assert(text_at(events, i));
    }
}

/// A leaf element nests properly, encloses its text and renders as its two
/// tags around the escaped text.
proof fn lemma_leaf(before: Seq<XmlEvent>, stack: Seq<Seq<char>>, name: Seq<char>, text: Seq<char>)
    requires
        nest(before) == Some(stack),
        texts_enclosed(before),
        valid_name(name),
    ensures
        nest(before + leaf(name, text)) == Some(stack),
        texts_enclosed(before + leaf(name, text)),
        render(before + leaf(name, text)) == render(before) + open_tag(name) + escape(text)
            + close_tag(name),
{
    let opened = before.push(XmlEvent::Open(name));
    assert(opened.drop_last() =~= before);
    assert(stack.push(name).drop_last() =~= stack);
    lemma_push_tag_enclosed(before, XmlEvent::Open(name));
    if text.len() == 0 {
        let after = opened.push(XmlEvent::Close(name));
        assert(after.drop_last() =~= opened);
        assert(after =~= before + leaf(name, text));
        lemma_push_tag_enclosed(opened, XmlEvent::Close(name));
        assert(escape(text) =~= Seq::<char>::empty());
        assert(nest(opened) == Some(stack.push(name)));
        assert(nest(after) == Some(stack));
        assert(render(opened) == render(before) + open_tag(name));
        assert(render(after) == render(opened) + close_tag(name));
        assert(render(after) =~= render(before) + open_tag(name) + escape(text) + close_tag(name));
    } else {
        let with_text = opened.push(XmlEvent::Text(text));
        let after = with_text.push(XmlEvent::Close(name));
        assert(with_text.drop_last() =~= opened);
        assert(after.drop_last() =~= with_text);
        assert(after =~= before + leaf(name, text));
        assert(nest(opened) == Some(stack.push(name)));
        assert(nest(with_text) == Some(stack.push(name)));
        assert(nest(after) == Some(stack));
        assert(render(opened) == render(before) + open_tag(name));
        assert(render(with_text) == render(opened) + escape(text));
        assert(render(after) == render(with_text) + close_tag(name));
        assert(render(after) =~= render(before) + open_tag(name) + escape(text) + close_tag(name));
        assert forall|i: int| #[trigger] text_at(after, i) implies {
            &&& after[i]->Text_0.len() > 0
            &&& 0 < i
            &&& after[i - 1] is Open
            &&& i + 1 < after.len()
            &&& after[i + 1] is Close
        } by {
            if i < before.len() {
                assert(text_at(before, i));
            }
        }
    }
}

/// One more item extends what a sequence writes by that item's element,
/// unless an earlier item has failed.
proof fn lemma_sequence_step<B: XmlBody>(name: Seq<char>, items: Seq<B>, n: int)
    requires
        0 <= n < items.len(),
        sequence_outcome(name, items.take(n)) is Ok,
    ensures
        sequence_outcome(name, items.take(n + 1)) == open_close_outcome(name, &items[n]),
        sequence_written(name, items.take(n + 1)) == sequence_written(name, items.take(n))
            + open_close_written(name, &items[n]),
{
    assert(items.take(n + 1).drop_last() =~= items.take(n));
    assert(items.take(n + 1).last() == items[n]);
}

/// Once a prefix of the items has failed, the whole sequence fails the same
/// way and writes no more.
proof fn lemma_sequence_stops<B: XmlBody>(name: Seq<char>, items: Seq<B>, n: int)
    requires
        0 <= n <= items.len(),
        sequence_outcome(name, items.take(n)) is Err,
    ensures
        sequence_outcome(name, items) == sequence_outcome(name, items.take(n)),
        sequence_written(name, items) == sequence_written(name, items.take(n)),
    decreases items.len() - n,
{
    if n == items.len() {
        assert(items.take(n) =~= items);
    } else {
        assert(items.take(n + 1).drop_last() =~= items.take(n));
        lemma_sequence_stops(name, items, n + 1);
    }
}

/// A sequence under a valid name whose items all succeed succeeds.
pub proof fn lemma_sequence_ok<B: XmlBody>(name: Seq<char>, items: Seq<B>)
    requires
        valid_name(name),
        forall|i: int| 0 <= i < items.len() ==> (#[trigger] items[i]).outcome() is Ok,
    ensures
        sequence_outcome(name, items) is Ok,
    decreases items.len(),
{
    if items.len() > 0 {
        lemma_sequence_ok(name, items.drop_last());
    }
}

/// Appending a piece to what was appended before: the pieces group either
/// way.
pub proof fn lemma_extend(before: Seq<XmlEvent>, done: Seq<XmlEvent>, piece: Seq<XmlEvent>)
    ensures
        (before + done) + piece == before + (done + piece),
{
    assert((before + done) + piece =~= before + (done + piece));
}

/// An element renders as its start tag, its children and its end tag.
pub proof fn lemma_render_element(name: Seq<char>, inner: Seq<XmlEvent>)
    ensures
        render(element(name, inner)) == open_tag(name) + render(inner) + close_tag(name),
{
    let start = seq![XmlEvent::Open(name)];
    let end = seq![XmlEvent::Close(name)];
    lemma_render_concat(start + inner, end);
    lemma_render_concat(start, inner);
    lemma_single(Some(Seq::empty()), XmlEvent::Open(name));
    lemma_single(Some(Seq::empty()), XmlEvent::Close(name));
}

/// A single event renders as itself and moves the stack by one step.
pub proof fn lemma_single(stack: Option<Seq<Seq<char>>>, e: XmlEvent)
    ensures
        render(seq![e]) == render_event(e),
        nest_from(stack, seq![e]) == nest_step(stack, e),
{
    let one = seq![e];
    assert(one.drop_last() =~= Seq::<XmlEvent>::empty());
    assert(one.last() == e);
    assert(render(one.drop_last()) =~= Seq::<char>::empty());
    assert(render(one) =~= render_event(e));
    assert(nest_from(stack, one.drop_last()) == stack);
}

/// Whatever elements are open, `open_close` leaves them open as it found
/// them: its end tag closes its own start tag, as long as its children leave
/// the element itself open. This holds of what is written when the body
/// fails, too, and of an invalid name, under which nothing is written.
pub proof fn lemma_open_close_balanced<B: XmlBody>(
    stack: Seq<Seq<char>>,
    name: Seq<char>,
    body: &B,
)
    requires
        nest_from(Some(stack.push(name)), body.written()) == Some(stack.push(name)),
    ensures
        nest_from(Some(stack), open_close_written(name, body)) == Some(stack),
{
    if valid_name(name) {
        let start = seq![XmlEvent::Open(name)];
        let end = seq![XmlEvent::Close(name)];
        let inner = body.written();
        lemma_nest_concat(Some(stack), start + inner, end);
        lemma_nest_concat(Some(stack), start, inner);
        lemma_single(Some(stack), XmlEvent::Open(name));
        lemma_single(Some(stack.push(name)), XmlEvent::Close(name));
        assert(stack.push(name).drop_last() =~= stack);
    }
}

/// Whatever elements are open, `optional_nested` leaves them open as it
/// found them, under the same condition as `open_close`.
pub proof fn lemma_optional_nested_balanced<B: XmlBody>(
    stack: Seq<Seq<char>>,
    name: Seq<char>,
    value: Option<B>,
)
    requires
        value is Some ==> nest_from(Some(stack.push(name)), value->0.written()) == Some(
            stack.push(name),
        ),
    ensures
        nest_from(Some(stack), optional_nested_written(name, value)) == Some(stack),
{
    match value {
        Some(body) => {
            lemma_open_close_balanced(stack, name, &body);
        },
        None => {},
    }
}

} // verus!
