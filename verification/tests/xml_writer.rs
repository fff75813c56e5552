use s3_wire::xml::{is_valid_name, XmlBody, XmlError, XmlEvent, XmlWriter};

struct Empty;

impl XmlBody for Empty {
    fn written(&self) -> vstd::seq::Seq<XmlEvent> {
        unreachable!()
    }

    fn outcome(&self) -> Result<(), XmlError> {
        unreachable!()
    }

    fn write_to(&self, _w: &mut XmlWriter) -> Result<(), XmlError> {
        Ok(())
    }
}

struct Pair(&'static str, &'static str);

impl XmlBody for Pair {
    fn written(&self) -> vstd::seq::Seq<XmlEvent> {
        unreachable!()
    }

    fn outcome(&self) -> Result<(), XmlError> {
        unreachable!()
    }

    fn write_to(&self, w: &mut XmlWriter) -> Result<(), XmlError> {
        w.optional_element("First", &Some(self.0.to_string()))?;
        w.optional_element("Second", &Some(self.1.to_string()))
    }
}

struct FailsAfterOne;

impl XmlBody for FailsAfterOne {
    fn written(&self) -> vstd::seq::Seq<XmlEvent> {
        unreachable!()
    }

    fn outcome(&self) -> Result<(), XmlError> {
        unreachable!()
    }

    fn write_to(&self, w: &mut XmlWriter) -> Result<(), XmlError> {
        w.optional_element("Good", &Some("1".to_string()))?;
        w.optional_element("not a name", &Some("2".to_string()))?;
        w.optional_element("Never", &Some("3".to_string()))
    }
}

struct Nested;

impl XmlBody for Nested {
    fn written(&self) -> vstd::seq::Seq<XmlEvent> {
        unreachable!()
    }

    fn outcome(&self) -> Result<(), XmlError> {
        unreachable!()
    }

    fn write_to(&self, w: &mut XmlWriter) -> Result<(), XmlError> {
        w.open_close("Inner", &FailsAfterOne)
    }
}

#[test]
fn open_close_wraps_the_children() {
    let mut w = XmlWriter::new(64);
    assert_eq!(w.open_close("Root", &Pair("a", "b")), Ok(()));
    assert_eq!(w.finish(), "<Root><First>a</First><Second>b</Second></Root>");
}

#[test]
fn open_close_with_no_children_is_the_two_tags() {
    let mut w = XmlWriter::new(0);
    assert_eq!(w.open_close("Root", &Empty), Ok(()));
    assert_eq!(w.as_str(), "<Root></Root>");
}

#[test]
fn open_close_refuses_an_invalid_name_and_writes_nothing() {
    let mut w = XmlWriter::new(8);
    assert_eq!(w.open_close("1abc", &Pair("a", "b")), Err(XmlError::InvalidName));
    assert_eq!(w.open_close("", &Empty), Err(XmlError::InvalidName));
    assert_eq!(w.open_close("a b", &Empty), Err(XmlError::InvalidName));
    assert_eq!(w.as_str(), "");
}

#[test]
fn open_close_closes_its_tag_when_the_body_fails() {
    let mut w = XmlWriter::new(8);
    assert_eq!(w.open_close("Outer", &FailsAfterOne), Err(XmlError::InvalidName));
    assert_eq!(w.as_str(), "<Outer><Good>1</Good></Outer>");
}

#[test]
fn failure_unwinds_through_every_open_ancestor() {
    let mut w = XmlWriter::new(8);
    assert_eq!(w.open_close("Outer", &Nested), Err(XmlError::InvalidName));
    assert_eq!(w.as_str(), "<Outer><Inner><Good>1</Good></Inner></Outer>");
}

#[test]
fn optional_nested_closes_its_tag_when_the_body_fails() {
    let mut w = XmlWriter::new(8);
    assert_eq!(w.optional_nested("Outer", &Some(FailsAfterOne)), Err(XmlError::InvalidName));
    assert_eq!(w.as_str(), "<Outer><Good>1</Good></Outer>");
}

#[test]
fn optional_element_writes_nothing_for_an_absent_value() {
    let mut w = XmlWriter::new(8);
    assert_eq!(w.optional_element("CreationDate", &None), Ok(()));
    assert_eq!(w.as_str(), "");
    assert_eq!(w.optional_element("not a name", &None), Ok(()));
    assert_eq!(w.as_str(), "");
}

#[test]
fn optional_element_writes_an_empty_value_as_an_empty_element() {
    let mut w = XmlWriter::new(8);
    assert_eq!(w.optional_element("Name", &Some(String::new())), Ok(()));
    assert_eq!(w.as_str(), "<Name></Name>");
}

#[test]
fn optional_element_escapes_markup_characters() {
    let mut w = XmlWriter::new(8);
    assert_eq!(w.optional_element("Key", &Some("a<b>&c\"d'".to_string())), Ok(()));
    assert_eq!(w.as_str(), "<Key>a&lt;b&gt;&amp;c\"d'</Key>");
}

#[test]
fn optional_element_keeps_text_beyond_ascii() {
    let mut w = XmlWriter::new(8);
    assert_eq!(w.optional_element("Key", &Some("caf\u{e9}/\u{65e5}\u{672c}".to_string())), Ok(()));
    assert_eq!(w.as_str(), "<Key>caf\u{e9}/\u{65e5}\u{672c}</Key>");
}

#[test]
fn optional_element_refuses_an_invalid_name() {
    let mut w = XmlWriter::new(8);
    assert_eq!(
        w.optional_element("<Name>", &Some("x".to_string())),
        Err(XmlError::InvalidName)
    );
    assert_eq!(w.as_str(), "");
}

#[test]
fn optional_nested_writes_nothing_for_an_absent_value() {
    let mut w = XmlWriter::new(8);
    let absent: Option<Pair> = None;
    assert_eq!(w.optional_nested("Owner", &absent), Ok(()));
    assert_eq!(w.as_str(), "");
}

#[test]
fn optional_nested_wraps_a_present_value() {
    let mut w = XmlWriter::new(8);
    assert_eq!(w.optional_nested("Owner", &Some(Pair("x", "y"))), Ok(()));
    assert_eq!(w.as_str(), "<Owner><First>x</First><Second>y</Second></Owner>");
}

#[test]
fn sequence_element_keeps_the_order_of_its_items() {
    let mut w = XmlWriter::new(8);
    let items = vec![Pair("3", "c"), Pair("1", "a"), Pair("2", "b"), Pair("1", "a")];
    assert_eq!(w.sequence_element("Item", &items), Ok(()));
    assert_eq!(
        w.as_str(),
        "<Item><First>3</First><Second>c</Second></Item>\
         <Item><First>1</First><Second>a</Second></Item>\
         <Item><First>2</First><Second>b</Second></Item>\
         <Item><First>1</First><Second>a</Second></Item>"
    );
}

#[test]
fn sequence_element_stops_at_the_first_failure() {
    let mut w = XmlWriter::new(8);
    let items = vec![FailsAfterOne, FailsAfterOne];
    assert_eq!(w.sequence_element("Item", &items), Err(XmlError::InvalidName));
    assert_eq!(w.as_str(), "<Item><Good>1</Good></Item>");
}

#[test]
fn sequence_element_of_nothing_writes_nothing() {
    let mut w = XmlWriter::new(8);
    let items: Vec<Pair> = Vec::new();
    assert_eq!(w.sequence_element("Item", &items), Ok(()));
    assert_eq!(w.as_str(), "");
}

#[test]
fn a_large_capacity_hint_does_not_limit_or_break_the_writer() {
    let mut w = XmlWriter::new(usize::MAX);
    assert_eq!(w.open_close("Root", &Pair("a", "b")), Ok(()));
    assert_eq!(w.as_str(), "<Root><First>a</First><Second>b</Second></Root>");
}

#[test]
fn valid_names() {
    assert!(is_valid_name("ListBucketResult"));
    assert!(is_valid_name("_x"));
    assert!(is_valid_name("a-b.c_d9"));
    assert!(!is_valid_name(""));
    assert!(!is_valid_name("9a"));
    assert!(!is_valid_name("-a"));
    assert!(!is_valid_name("a b"));
    assert!(!is_valid_name("a>"));
    assert!(!is_valid_name("/a"));
    assert!(!is_valid_name("caf\u{e9}"));
}
