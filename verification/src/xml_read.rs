//! Reading back what the XML writer wrote: text to events.

use vstd::prelude::*;
use vstd::string::*;
use crate::xml::{
    element, escape, escape_char, leaf, lemma_render_concat, lemma_sequence_ok, lemma_single,
    name_char, name_start, nest_from, open_close_written, optional_element_written, render,
    render_event, sequence_written, text_at, texts_enclosed, valid_name, XmlBody, XmlEvent,
};

verus! {

/// The position of the first `c` in `s`, or the length of `s` when there is
/// none.
pub open spec fn find(s: Seq<char>, c: char) -> int
    decreases s.len(),
{
    if s.len() == 0 {
        0
    } else if s[0] == c {
        0
    } else {
        1 + find(s.skip(1), c)
    }
}

/// Whether `s` starts with `prefix`.
pub open spec fn starts_with(s: Seq<char>, prefix: Seq<char>) -> bool {
    s.len() >= prefix.len() && s.take(prefix.len() as int) == prefix
}

/// The text that escaped character data stands for: `&amp;`, `&lt;` and
/// `&gt;` become `&`, `<` and `>`, every other character stands for itself,
/// and any other use of `&` is malformed.
pub open spec fn unescape(raw: Seq<char>) -> Option<Seq<char>>
    decreases raw.len(),
{
    if raw.len() == 0 {
        Some(Seq::empty())
    } else if raw[0] == '&' {
        if starts_with(raw, escape_char('&')) {
            match unescape(raw.skip(5)) {
                Some(tail) => Some(seq!['&'] + tail),
                None => None,
            }
        } else if starts_with(raw, escape_char('<')) {
            match unescape(raw.skip(4)) {
                Some(tail) => Some(seq!['<'] + tail),
                None => None,
            }
        } else if starts_with(raw, escape_char('>')) {
            match unescape(raw.skip(4)) {
                Some(tail) => Some(seq!['>'] + tail),
                None => None,
            }
        } else {
            None
        }
    } else {
        match unescape(raw.skip(1)) {
            Some(tail) => Some(seq![raw[0]] + tail),
            None => None,
        }
    }
}

/// The event that the inside of a tag stands for: an end tag when it starts
/// with `/`, a start tag otherwise; none when the name is invalid.
pub open spec fn tag_event(inside: Seq<char>) -> Option<XmlEvent> {
    if inside.len() > 0 && inside[0] == '/' {
        if valid_name(inside.skip(1)) {
            Some(XmlEvent::Close(inside.skip(1)))
        } else {
            None
        }
    } else if valid_name(inside) {
        Some(XmlEvent::Open(inside))
    } else {
        None
    }
}

/// The events that a text stands for: tags between `<` and the next `>`,
/// and between tags runs of escaped character data. `None` when a tag is
/// not closed, a name is invalid or the character data is malformed.
pub open spec fn scan(s: Seq<char>) -> Option<Seq<XmlEvent>>
    decreases s.len(),
{
    if s.len() == 0 {
        Some(Seq::empty())
    } else if s[0] == '<' {
        let end = find(s, '>');
        if end < 1 || end >= s.len() {
            None
        } else {
            match (tag_event(s.subrange(1, end)), scan(s.skip(end + 1))) {
                (Some(e), Some(tail)) => Some(seq![e] + tail),
                _ => None,
            }
        }
    } else {
        let end = find(s, '<');
        if end <= 0 || end > s.len() {
            None
        } else {
            match (unescape(s.take(end)), scan(s.skip(end))) {
                (Some(text), Some(tail)) => Some(seq![XmlEvent::Text(text)] + tail),
                _ => None,
            }
        }
    }
}

/// `find` stays within the text, and nothing before the position it gives
/// is the character sought.
pub proof fn lemma_find(s: Seq<char>, c: char)
    ensures
        0 <= find(s, c) <= s.len(),
        find(s, c) < s.len() ==> s[find(s, c)] == c,
        forall|i: int| 0 <= i < find(s, c) ==> s[i] != c,
    decreases s.len(),
{
    if s.len() > 0 && s[0] != c {
        lemma_find(s.skip(1), c);
        assert forall|i: int| 0 <= i < find(s, c) implies s[i] != c by {
            if i > 0 {
                assert(s.skip(1)[i - 1] == s[i]);
            }
        }
    }
}

/// The first occurrence is where a part without the character ends and the
/// character follows.
pub proof fn lemma_find_after(a: Seq<char>, b: Seq<char>, c: char)
    requires
        forall|i: int| 0 <= i < a.len() ==> a[i] != c,
        b.len() == 0 || b[0] == c,
    ensures
        find(a + b, c) == a.len(),
    decreases a.len(),
{
    if a.len() == 0 {
        assert(a + b =~= b);
    } else {
        assert((a + b).skip(1) =~= a.skip(1) + b);
        assert forall|i: int| 0 <= i < a.skip(1).len() implies a.skip(1)[i] != c by {
            assert(a.skip(1)[i] == a[i + 1]);
        }
        lemma_find_after(a.skip(1), b, c);
        assert((a + b)[0] == a[0]);
    }
}

/// Escaping works from the front as it does from the back.
pub proof fn lemma_escape_front(text: Seq<char>)
    requires
        text.len() > 0,
    ensures
        escape(text) == escape_char(text[0]) + escape(text.skip(1)),
    decreases text.len(),
{
    if text.len() == 1 {
        assert(text.drop_last() =~= Seq::<char>::empty());
        assert(text.skip(1) =~= Seq::<char>::empty());
        assert(escape(text.drop_last()) =~= Seq::<char>::empty());
        assert(escape(text) =~= escape_char(text[0]) + escape(text.skip(1)));
    } else {
        lemma_escape_front(text.drop_last());
        assert(text.drop_last().skip(1) =~= text.skip(1).drop_last());
        assert(text.drop_last()[0] == text[0]);
        assert(text.skip(1).last() == text.last());
        assert(escape(text) =~= escape_char(text[0]) + escape(text.skip(1)));
    }
}

/// Escaped text holds neither `<` nor `>`, and is empty only for the empty
/// text.
pub proof fn lemma_escape_plain(text: Seq<char>)
    ensures
        forall|i: int|
            0 <= i < escape(text).len() ==> escape(text)[i] != '<' && escape(text)[i] != '>',
        text.len() > 0 ==> escape(text).len() > 0,
    decreases text.len(),
{
    if text.len() > 0 {
        lemma_escape_plain(text.drop_last());
        let head = escape(text.drop_last());
        let last = escape_char(text.last());
        assert forall|i: int| 0 <= i < escape(text).len() implies escape(text)[i] != '<' && escape(
            text,
        )[i] != '>' by {
            if i < head.len() {
                assert(escape(text)[i] == head[i]);
            } else {
                assert(escape(text)[i] == last[i - head.len()]);
            }
        }
    }
}

/// Unescaping undoes escaping.
pub proof fn lemma_unescape_escape(text: Seq<char>)
    ensures
        unescape(escape(text)) == Some(text),
    decreases text.len(),
{
    if text.len() == 0 {
        assert(escape(text) =~= Seq::<char>::empty());
    } else {
        lemma_escape_front(text);
        lemma_unescape_escape(text.skip(1));
        let c = text[0];
        let head = escape_char(c);
        let tail = escape(text.skip(1));
        let raw = escape(text);
        assert(raw == head + tail);
        assert(raw.skip(head.len() as int) =~= tail);
        assert(raw.take(head.len() as int) =~= head);
        assert(seq![c] + text.skip(1) =~= text);
        if c == '&' {
            assert(raw[0] == '&');
        } else if c == '<' {
            assert(raw[0] == '&');
            assert(raw[1] == 'l');
            assert(!starts_with(raw, escape_char('&'))) by {
                if raw.len() >= 5 {
                    assert(raw.take(5)[1] == 'l');
                    assert(escape_char('&')[1] == 'a');
                }
            }
        } else if c == '>' {
            assert(raw[0] == '&');
            assert(raw[1] == 'g');
            assert(!starts_with(raw, escape_char('&'))) by {
                if raw.len() >= 5 {
                    assert(raw.take(5)[1] == 'g');
                    assert(escape_char('&')[1] == 'a');
                }
            }
            assert(!starts_with(raw, escape_char('<'))) by {
                assert(raw.take(4)[1] == 'g');
                assert(escape_char('<')[1] == 'l');
            }
        } else {
            assert(raw[0] == c);
        }
    }
}

/// Whether the event at position `i` can be read back: a tag has a valid
/// name, and a text is non-empty and followed by a tag.
pub open spec fn readable_at(events: Seq<XmlEvent>, i: int) -> bool {
    match events[i] {
        XmlEvent::Open(name) => valid_name(name),
        XmlEvent::Close(name) => valid_name(name),
        XmlEvent::Text(text) => text.len() > 0 && i + 1 < events.len() && !(events[i + 1] is Text),
    }
}

/// Every event can be read back.
pub open spec fn readable(events: Seq<XmlEvent>) -> bool {
    forall|i: int| 0 <= i < events.len() ==> #[trigger] readable_at(events, i)
}

/// Rendering works from the front as it does from the back.
pub proof fn lemma_render_front(events: Seq<XmlEvent>)
    requires
        events.len() > 0,
    ensures
        render(events) == render_event(events[0]) + render(events.skip(1)),
{
    lemma_render_concat(seq![events[0]], events.skip(1));
    lemma_single(None, events[0]);
    assert(seq![events[0]] + events.skip(1) =~= events);
}

/// A valid name holds none of `<`, `>` and `/`.
pub proof fn lemma_name_plain(name: Seq<char>)
    requires
        valid_name(name),
    ensures
        forall|i: int| 0 <= i < name.len() ==> name[i] != '<' && name[i] != '>' && name[i] != '/',
{
    assert forall|i: int| 0 <= i < name.len() implies name[i] != '<' && name[i] != '>' && name[i]
        != '/' by {
        assert(name_char(name[i]));
    }
}

/// Scanning the rendering of readable events gives the events back.
pub proof fn lemma_scan_render(events: Seq<XmlEvent>)
    requires
        readable(events),
    ensures
        scan(render(events)) == Some(events),
    decreases events.len(),
{
    if events.len() == 0 {
        assert(render(events) =~= Seq::<char>::empty());
    } else {
        let first = events[0];
        let rest = events.skip(1);
        let s = render(events);
        let r = render(rest);
        lemma_render_front(events);
        assert(readable_at(events, 0));
        assert forall|i: int| 0 <= i < rest.len() implies #[trigger] readable_at(rest, i) by {
            assert(readable_at(events, i + 1));
            assert(rest[i] == events[i + 1]);
            if i + 1 < rest.len() {
                assert(rest[i + 1] == events[i + 2]);
            }
        }
        lemma_scan_render(rest);
        assert(seq![first] + rest =~= events);
        match first {
            XmlEvent::Open(name) => {
                lemma_name_plain(name);
                let a = seq!['<'] + name;
                let b = seq!['>'] + r;
                assert(s =~= a + b);
                lemma_find_after(a, b, '>');
                assert(s.subrange(1, a.len() as int) =~= name);
                assert(s.skip(a.len() as int + 1) =~= r);
                assert(name_start(name[0]));
            },
            XmlEvent::Close(name) => {
                lemma_name_plain(name);
                let a = seq!['<', '/'] + name;
                let b = seq!['>'] + r;
                assert(s =~= a + b);
                lemma_find_after(a, b, '>');
                let inside = s.subrange(1, a.len() as int);
                assert(inside =~= seq!['/'] + name);
                assert(inside.skip(1) =~= name);
                assert(s.skip(a.len() as int + 1) =~= r);
            },
            XmlEvent::Text(text) => {
                lemma_escape_plain(text);
                lemma_unescape_escape(text);
                let a = escape(text);
                assert(s == a + r);
                assert(rest.len() > 0 && !(rest[0] is Text));
                lemma_render_front(rest);
                assert(r[0] == '<');
                lemma_find_after(a, r, '<');
                assert(s[0] == a[0]);
                assert(s.take(a.len() as int) =~= a);
                assert(s.skip(a.len() as int) =~= r);
            },
        }
    }
}

/// Every name in a stack of open elements is valid.
pub open spec fn valid_stack(stack: Seq<Seq<char>>) -> bool {
    forall|k: int| 0 <= k < stack.len() ==> valid_name(#[trigger] stack[k])
}

/// Events that nest properly from a stack of valid names have valid names
/// throughout.
pub proof fn lemma_nest_names(stack: Seq<Seq<char>>, events: Seq<XmlEvent>)
    requires
        valid_stack(stack),
        nest_from(Some(stack), events) is Some,
    ensures
        valid_stack(nest_from(Some(stack), events)->0),
        forall|i: int|
            0 <= i < events.len() ==> match #[trigger] events[i] {
                XmlEvent::Open(name) => valid_name(name),
                XmlEvent::Close(name) => valid_name(name),
                XmlEvent::Text(_) => true,
            },
    decreases events.len(),
{
    if events.len() > 0 {
        let shorter = events.drop_last();
        lemma_nest_names(stack, shorter);
        let mid = nest_from(Some(stack), shorter)->0;
        let after = nest_from(Some(stack), events)->0;
        match events.last() {
            XmlEvent::Open(name) => {
                assert(after == mid.push(name));
            },
            XmlEvent::Close(name) => {
                assert(mid.last() == name);
                assert(after == mid.drop_last());
            },
            XmlEvent::Text(_) => {},
        }
        assert forall|i: int| 0 <= i < events.len() implies match #[trigger] events[i] {
            XmlEvent::Open(name) => valid_name(name),
            XmlEvent::Close(name) => valid_name(name),
            XmlEvent::Text(_) => true,
        } by {
            if i < shorter.len() {
                assert(shorter[i] == events[i]);
            }
        }
    }
}

/// Events that nest properly and enclose their texts can be read back.
pub proof fn lemma_readable(events: Seq<XmlEvent>)
    requires
        nest_from(Some(Seq::empty()), events) is Some,
        texts_enclosed(events),
    ensures
        readable(events),
{
    lemma_nest_names(Seq::empty(), events);
    assert forall|i: int| 0 <= i < events.len() implies #[trigger] readable_at(events, i) by {
        if events[i] is Text {
            assert(text_at(events, i));
        }
    }
}

/// One unit of XML input, as the scanner hands it out.
#[derive(Clone, Debug, PartialEq, Eq)]
pub enum Token {
    /// A start tag with its name.
    Open(String),
    /// Character data, unescaped.
    Text(String),
    /// An end tag with its name.
    Close(String),
}

impl View for Token {
    type V = XmlEvent;

    open spec fn view(&self) -> XmlEvent {
        match self {
            Token::Open(name) => XmlEvent::Open(name@),
            Token::Text(text) => XmlEvent::Text(text@),
            Token::Close(name) => XmlEvent::Close(name@),
        }
    }
}

/// The events that a sequence of tokens stands for.
pub open spec fn events_of(tokens: Seq<Token>) -> Seq<XmlEvent> {
    tokens.map_values(|t: Token| t@)
}

/// The position of the first `c` at or after `from`, or the length when
/// there is none.
fn find_char(chars: &Vec<char>, from: usize, c: char) -> (r: usize)
    requires
        from <= chars.len(),
    ensures
        r == from + find(chars@.skip(from as int), c),
        from <= r <= chars.len(),
{
    let mut i: usize = from;
    while i < chars.len()
        invariant
            from <= i <= chars.len(),
            find(chars@.skip(from as int), c) == (i - from) + find(chars@.skip(i as int), c),
        decreases chars.len() - i,
    {
        let ghost here = chars@.skip(i as int);
        assert(here[0] == chars@[i as int]);
        if chars[i] == c {
            return i;
        }
        assert(here.skip(1) =~= chars@.skip(i + 1));
        i += 1;
    }
    assert(chars@.skip(i as int) =~= Seq::<char>::empty());
    i
}

/// The characters from `from` up to `to`, as a string.
fn string_of(chars: &Vec<char>, from: usize, to: usize) -> (out: String)
    requires
        from <= to <= chars.len(),
    ensures
        out@ == chars@.subrange(from as int, to as int),
{
    let mut out = String::new();
    let mut i: usize = from;
    assert(chars@.subrange(from as int, from as int) =~= Seq::<char>::empty());
    while i < to
        invariant
            from <= i <= to <= chars.len(),
            out@ == chars@.subrange(from as int, i as int),
        decreases to - i,
    {
        crate::text::push_char(&mut out, chars[i]);
        assert(out@ =~= chars@.subrange(from as int, i + 1));
        i += 1;
    }
    out
}

/// The text that the escaped characters from `from` up to `to` stand for.
fn unescape_range(chars: &Vec<char>, from: usize, to: usize) -> (r: Option<String>)
    requires
        from <= to <= chars.len(),
    ensures
        match r {
            Some(text) => unescape(chars@.subrange(from as int, to as int)) == Some(text@),
            None => unescape(chars@.subrange(from as int, to as int)) is None,
        },
{
    let ghost raw = chars@.subrange(from as int, to as int);
    let mut out = String::new();
    let mut i: usize = from;
    assert(raw.skip(0) =~= raw);
    assert(out@ + unescape(raw)->0 =~= unescape(raw)->0);
    while i < to
        invariant
            from <= i <= to <= chars.len(),
            raw == chars@.subrange(from as int, to as int),
            unescape(raw) == match unescape(raw.skip(i - from)) {
                Some(tail) => Some(out@ + tail),
                None => None,
            },
        decreases to - i,
    {
        let ghost here = raw.skip(i - from);
        let ghost done = out@;
        assert(here.len() == to - i);
        assert(here[0] == chars@[i as int]);
        let c = chars[i];
        if c == '&' {
            assert(to - i >= 4 ==> here.take(4) =~= seq![
                chars@[i as int],
                chars@[i + 1],
                chars@[i + 2],
                chars@[i + 3],
            ]);
            assert(to - i >= 5 ==> here.take(5) =~= seq![
                chars@[i as int],
                chars@[i + 1],
                chars@[i + 2],
                chars@[i + 3],
                chars@[i + 4],
            ]);
            if to - i >= 5 && chars[i + 1] == 'a' && chars[i + 2] == 'm' && chars[i + 3] == 'p'
                && chars[i + 4] == ';' {
                assert(starts_with(here, escape_char('&')));
                crate::text::push_char(&mut out, '&');
                assert(here.skip(5) =~= raw.skip(i + 5 - from));
                proof {
                    let tail = unescape(here.skip(5));
                    if tail is Some {
                        assert(done + (seq!['&'] + tail->0) =~= out@ + tail->0);
                    }
                }
                i += 5;
            } else if to - i >= 4 && chars[i + 1] == 'l' && chars[i + 2] == 't' && chars[i + 3]
                == ';' {
                assert(!starts_with(here, escape_char('&'))) by {
                    if here.len() >= 5 {
                        assert(here.take(5)[1] == 'l');
                        assert(escape_char('&')[1] == 'a');
                    }
                }
                assert(starts_with(here, escape_char('<')));
                crate::text::push_char(&mut out, '<');
                assert(here.skip(4) =~= raw.skip(i + 4 - from));
                proof {
                    let tail = unescape(here.skip(4));
                    if tail is Some {
                        assert(done + (seq!['<'] + tail->0) =~= out@ + tail->0);
                    }
                }
                i += 4;
            } else if to - i >= 4 && chars[i + 1] == 'g' && chars[i + 2] == 't' && chars[i + 3]
                == ';' {
                assert(!starts_with(here, escape_char('&'))) by {
                    if here.len() >= 5 {
                        assert(here.take(5)[1] == 'g');
                        assert(escape_char('&')[1] == 'a');
                    }
                }
                assert(!starts_with(here, escape_char('<'))) by {
                    assert(here.take(4)[1] == 'g');
                    assert(escape_char('<')[1] == 'l');
                }
                assert(starts_with(here, escape_char('>')));
                crate::text::push_char(&mut out, '>');
                assert(here.skip(4) =~= raw.skip(i + 4 - from));
                proof {
                    let tail = unescape(here.skip(4));
                    if tail is Some {
                        assert(done + (seq!['>'] + tail->0) =~= out@ + tail->0);
                    }
                }
                i += 4;
            } else {
                proof {
                    lemma_no_entity(here);
                }
                return None;
            }
        } else {
            crate::text::push_char(&mut out, c);
            assert(here.skip(1) =~= raw.skip(i + 1 - from));
            proof {
                let tail = unescape(here.skip(1));
                if tail is Some {
                    assert(done + (seq![c] + tail->0) =~= out@ + tail->0);
                }
            }
            i += 1;
        }
    }
    assert(raw.skip(to - from) =~= Seq::<char>::empty());
    assert(out@ + Seq::<char>::empty() =~= out@);
    Some(out)
}

/// A text that starts with `&` but with none of the three entities is
/// malformed.
proof fn lemma_no_entity(here: Seq<char>)
    requires
        here.len() > 0,
        here[0] == '&',
        !(here.len() >= 5 && here[1] == 'a' && here[2] == 'm' && here[3] == 'p' && here[4] == ';'),
        !(here.len() >= 4 && here[1] == 'l' && here[2] == 't' && here[3] == ';'),
        !(here.len() >= 4 && here[1] == 'g' && here[2] == 't' && here[3] == ';'),
    ensures
        unescape(here) is None,
{
    if starts_with(here, escape_char('&')) {
        let t = here.take(5);
        assert(t[1] == 'a' && t[2] == 'm' && t[3] == 'p' && t[4] == ';');
    }
    if starts_with(here, escape_char('<')) {
        let t = here.take(4);
        assert(t[1] == 'l' && t[2] == 't' && t[3] == ';');
    }
    if starts_with(here, escape_char('>')) {
        let t = here.take(4);
        assert(t[1] == 'g' && t[2] == 't' && t[3] == ';');
    }
}

/// Reads a text as a sequence of tokens: the events that the text stands
/// for, or nothing when it stands for none.
pub fn tokenize(text: &str) -> (r: Option<Vec<Token>>)
    ensures
        match r {
            Some(tokens) => scan(text@) == Some(events_of(tokens@)),
            None => scan(text@) is None,
        },
{
    let chars = crate::text::chars_of(text);
    let n = chars.len();
    let ghost s = text@;
    let mut tokens: Vec<Token> = Vec::new();
    let mut pos: usize = 0;
    assert(s.skip(0) =~= s);
    assert(events_of(tokens@) =~= Seq::<XmlEvent>::empty());
    assert(scan(s) is Some ==> events_of(tokens@) + scan(s)->0 =~= scan(s)->0);
    while pos < n
        invariant
            pos <= n,
            n == chars.len(),
            chars@ == s,
            s == text@,
            scan(s) == match scan(s.skip(pos as int)) {
                Some(tail) => Some(events_of(tokens@) + tail),
                None => None,
            },
        decreases n - pos,
    {
        let ghost here = s.skip(pos as int);
        let ghost done = events_of(tokens@);
        assert(here[0] == s[pos as int]);
        proof {
            lemma_find(here, '<');
            lemma_find(here, '>');
            lemma_find(here.skip(1), '<');
        }
        if chars[pos] == '<' {
            let end = find_char(&chars, pos, '>');
            if end >= n || end == pos {
                return None;
            }
            assert(here.subrange(1, end - pos) =~= s.subrange(pos + 1, end as int));
            assert(here.skip(end - pos + 1) =~= s.skip(end + 1));
            let inside_start = pos + 1;
            let token = if inside_start < end && chars[inside_start] == '/' {
                let name = string_of(&chars, inside_start + 1, end);
                assert(name@ =~= here.subrange(1, end - pos).skip(1));
                if !crate::xml::is_valid_name(name.as_str()) {
                    return None;
                }
                Token::Close(name)
            } else {
                let name = string_of(&chars, inside_start, end);
                if !crate::xml::is_valid_name(name.as_str()) {
                    return None;
                }
                Token::Open(name)
            };
            assert(tag_event(here.subrange(1, end - pos)) == Some(token@));
            tokens.push(token);
            proof {
                let e = token@;
                let tail = scan(here.skip(end - pos + 1));
                assert(events_of(tokens@) =~= done.push(e));
                if tail is Some {
                    assert(done + (seq![e] + tail->0) =~= events_of(tokens@) + tail->0);
                }
            }
            pos = end + 1;
        } else {
            let end = find_char(&chars, pos, '<');
            assert(here.take(end - pos) =~= s.subrange(pos as int, end as int));
            assert(here.skip(end - pos) =~= s.skip(end as int));
            let text = match unescape_range(&chars, pos, end) {
                Some(text) => text,
                None => {
                    return None;
                },
            };
            let token = Token::Text(text);
            tokens.push(token);
            proof {
                let e = token@;
                let tail = scan(here.skip(end - pos));
                assert(events_of(tokens@) =~= done.push(e));
                if tail is Some {
                    assert(done + (seq![e] + tail->0) =~= events_of(tokens@) + tail->0);
                }
            }
            pos = end;
        }
    }
    assert(s.skip(pos as int) =~= Seq::<char>::empty());
    assert(events_of(tokens@) + Seq::<XmlEvent>::empty() =~= events_of(tokens@));
    Some(tokens)
}

/// The text of the leaf element that `rest` starts with, and what follows
/// the element: a start tag, at most one text, and the end tag of the same
/// name.
pub open spec fn leaf_text(rest: Seq<XmlEvent>) -> Option<(Seq<char>, Seq<XmlEvent>)> {
    if rest.len() >= 2 && rest[0] is Open && rest[1] == XmlEvent::Close(rest[0]->Open_0) {
        Some((Seq::empty(), rest.skip(2)))
    } else if rest.len() >= 3 && rest[0] is Open && rest[1] is Text && rest[2] == XmlEvent::Close(
        rest[0]->Open_0,
    ) {
        Some((rest[1]->Text_0, rest.skip(3)))
    } else {
        None
    }
}

/// Reading a leaf element gives its text back and stops right after it.
pub proof fn lemma_leaf_text(name: Seq<char>, text: Seq<char>, rest: Seq<XmlEvent>)
    ensures
        leaf_text(crate::xml::leaf(name, text) + rest) == Some((text, rest)),
        (crate::xml::leaf(name, text) + rest)[0] == XmlEvent::Open(name),
{
    let all = crate::xml::leaf(name, text) + rest;
    if text.len() == 0 {
        assert(all.skip(2) =~= rest);
        assert(text =~= Seq::<char>::empty());
    } else {
        assert(all.skip(3) =~= rest);
    }
}

/// A cursor over tokens.
pub struct Reader<'a> {
    tokens: &'a Vec<Token>,
    pos: usize,
}

impl<'a> Reader<'a> {
    /// Every event of the input.
    pub closed spec fn all(&self) -> Seq<XmlEvent> {
        events_of(self.tokens@)
    }

    /// How many events have been read.
    pub closed spec fn position(&self) -> int {
        self.pos as int
    }

    /// The cursor stands within the input or at its end.
    pub open spec fn wf(&self) -> bool {
        0 <= self.position() <= self.all().len()
    }

    /// The events not yet read.
    pub open spec fn rest(&self) -> Seq<XmlEvent> {
        self.all().skip(self.position())
    }

    /// A cursor at the start of `tokens`.
    pub fn new(tokens: &'a Vec<Token>) -> (r: Reader<'a>)
        ensures
            r.wf(),
            r.all() == events_of(tokens@),
            r.position() == 0,
            r.rest() == events_of(tokens@),
    {
        let r = Reader { tokens, pos: 0 };
        assert(r.all().skip(0) =~= r.all());
        r
    }

    /// Whether every event has been read.
    pub fn at_end(&self) -> (r: bool)
        requires
            self.wf(),
        ensures
            r == (self.rest().len() == 0),
    {
        self.pos >= self.tokens.len()
    }

    /// The name of the start tag that comes next, if a start tag comes
    /// next.
    pub fn peek_open(&self) -> (r: Option<&'a str>)
        requires
            self.wf(),
        ensures
            match r {
                Some(name) => self.rest().len() > 0 && self.rest()[0] == XmlEvent::Open(name@),
                None => self.rest().len() == 0 || !(self.rest()[0] is Open),
            },
    {
        if self.pos < self.tokens.len() {
            assert(self.rest()[0] == self.tokens@[self.pos as int]@);
            match &self.tokens[self.pos] {
                Token::Open(name) => Some(name.as_str()),
                _ => None,
            }
        } else {
            None
        }
    }

    /// Whether an end tag comes next.
    pub fn at_close(&self) -> (r: bool)
        requires
            self.wf(),
        ensures
            r == (self.rest().len() > 0 && self.rest()[0] is Close),
    {
        if self.pos < self.tokens.len() {
            assert(self.rest()[0] == self.tokens@[self.pos as int]@);
            match &self.tokens[self.pos] {
                Token::Close(_) => true,
                _ => false,
            }
        } else {
            false
        }
    }

    /// Whether the end tag `name` comes next.
    pub fn at_close_of(&self, name: &str) -> (r: bool)
        requires
            self.wf(),
        ensures
            r == (self.rest().len() > 0 && self.rest()[0] == XmlEvent::Close(name@)),
    {
        if self.pos < self.tokens.len() {
            assert(self.rest()[0] == self.tokens@[self.pos as int]@);
            match &self.tokens[self.pos] {
                Token::Close(found) => crate::text::str_eq(found.as_str(), name),
                _ => false,
            }
        } else {
            false
        }
    }

    /// Steps over the next event.
    pub fn skip_one(&mut self)
        requires
            old(self).wf(),
            old(self).rest().len() > 0,
        ensures
            final(self).wf(),
            final(self).all() == old(self).all(),
            final(self).position() == old(self).position() + 1,
            final(self).rest() == old(self).rest().skip(1),
    {
        let n = self.tokens.len();
        assert(self.rest().len() == n - self.pos);
        self.pos = self.pos + 1;
        assert(self.rest() =~= old(self).rest().skip(1));
    }

    /// Reads the leaf element that comes next and hands out its text.
    /// Nothing is read when no leaf element comes next.
    pub fn read_leaf(&mut self) -> (r: Option<String>)
        requires
            old(self).wf(),
        ensures
            final(self).wf(),
            final(self).all() == old(self).all(),
            match leaf_text(old(self).rest()) {
                Some((text, after)) => {
                    &&& r is Some
                    &&& r->0@ == text
                    &&& final(self).rest() == after
                    &&& final(self).position() > old(self).position()
                },
                None => r is None && final(self).position() == old(self).position(),
            },
    {
        let n = self.tokens.len();
        let pos = self.pos;
        if n - pos < 2 {
            return None;
        }
        let ghost rest = self.rest();
        assert(rest[0] == self.tokens@[pos as int]@);
        assert(rest[1] == self.tokens@[pos + 1]@);
        let name = match &self.tokens[pos] {
            Token::Open(name) => name,
            _ => {
                return None;
            },
        };
        match &self.tokens[pos + 1] {
            Token::Close(found) => {
                if crate::text::str_eq(found.as_str(), name.as_str()) {
                    self.pos = pos + 2;
                    assert(self.rest() =~= rest.skip(2));
                    Some(String::new())
                } else {
                    None
                }
            },
            Token::Text(text) => {
                if n - pos < 3 {
                    return None;
                }
                assert(rest[2] == self.tokens@[pos + 2]@);
                match &self.tokens[pos + 2] {
                    Token::Close(found) => {
                        if crate::text::str_eq(found.as_str(), name.as_str()) {
                            self.pos = pos + 3;
                            assert(self.rest() =~= rest.skip(3));
                            Some(text.clone())
                        } else {
                            None
                        }
                    },
                    _ => None,
                }
            },
            _ => None,
        }
    }
}

/// Readable events followed by readable events are readable.
pub proof fn lemma_readable_concat(a: Seq<XmlEvent>, b: Seq<XmlEvent>)
    requires
        readable(a),
        readable(b),
    ensures
        readable(a + b),
{
    let all = a + b;
    assert forall|i: int| 0 <= i < all.len() implies #[trigger] readable_at(all, i) by {
        if i < a.len() {
            assert(readable_at(a, i));
            assert(all[i] == a[i]);
            if i + 1 < a.len() {
                assert(all[i + 1] == a[i + 1]);
            }
        } else {
            assert(readable_at(b, i - a.len()));
            assert(all[i] == b[i - a.len()]);
            if i + 1 < all.len() {
                assert(all[i + 1] == b[i + 1 - a.len()]);
            }
        }
    }
}

/// What `optional_element` writes under a valid name is readable.
pub proof fn lemma_readable_optional(name: Seq<char>, value: Option<Seq<char>>)
    requires
        valid_name(name),
    ensures
        readable(optional_element_written(name, value)),
{
    let events = optional_element_written(name, value);
    assert forall|i: int| 0 <= i < events.len() implies #[trigger] readable_at(events, i) by {}
}

/// An element under a valid name around readable children is readable.
pub proof fn lemma_readable_element(name: Seq<char>, inner: Seq<XmlEvent>)
    requires
        valid_name(name),
        readable(inner),
    ensures
        readable(element(name, inner)),
{
    let start = seq![XmlEvent::Open(name)];
    let end = seq![XmlEvent::Close(name)];
    assert(readable_at(start, 0));
    assert(readable_at(end, 0));
    lemma_readable_concat(start, inner);
    lemma_readable_concat(start + inner, end);
}

/// A sequence works from the front as it does from the back, when its name
/// is valid and every item succeeds.
pub proof fn lemma_sequence_front<B: XmlBody>(name: Seq<char>, items: Seq<B>)
    requires
        valid_name(name),
        items.len() > 0,
        forall|i: int| 0 <= i < items.len() ==> (#[trigger] items[i]).outcome() is Ok,
    ensures
        sequence_written(name, items) == element(name, items[0].written()) + sequence_written(
            name,
            items.skip(1),
        ),
    decreases items.len(),
{
    let shorter = items.drop_last();
    lemma_sequence_ok(name, shorter);
    if items.len() == 1 {
        assert(shorter =~= Seq::<B>::empty());
        assert(items.skip(1) =~= Seq::<B>::empty());
        assert(sequence_written(name, items) =~= element(name, items[0].written())
            + sequence_written(name, items.skip(1)));
    } else {
        lemma_sequence_front(name, shorter);
        assert(shorter.skip(1) =~= items.skip(1).drop_last());
        assert(shorter[0] == items[0]);
        assert(items.skip(1).last() == items.last());
        lemma_sequence_ok(name, items.skip(1).drop_last());
        assert(sequence_written(name, items) =~= element(name, items[0].written())
            + sequence_written(name, items.skip(1)));
    }
}

/// A sequence under a valid name of items that succeed and write readable
/// events is readable.
pub proof fn lemma_readable_sequence<B: XmlBody>(name: Seq<char>, items: Seq<B>)
    requires
        valid_name(name),
        forall|i: int| 0 <= i < items.len() ==> (#[trigger] items[i]).outcome() is Ok,
        forall|i: int| 0 <= i < items.len() ==> readable((#[trigger] items[i]).written()),
    ensures
        readable(sequence_written(name, items)),
    decreases items.len(),
{
    if items.len() > 0 {
        let shorter = items.drop_last();
        lemma_readable_sequence(name, shorter);
        lemma_sequence_ok(name, shorter);
        lemma_readable_element(name, items.last().written());
        lemma_readable_concat(
            sequence_written(name, shorter),
            open_close_written(name, &items.last()),
        );
    }
}

} // verus!
