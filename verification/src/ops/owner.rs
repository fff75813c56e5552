//! Reading an owner back from its elements, in whichever order they come.

use vstd::prelude::*;
use vstd::string::*;
use crate::dto::{Owner, OwnerView};
use crate::text::str_eq;
use crate::xml::{option_text, optional_element_written, XmlEvent};
use crate::xml_read::{leaf_text, lemma_leaf_text, Reader};

verus! {

/// An owner with no field present.
pub open spec fn no_owner() -> OwnerView {
    OwnerView { display_name: None, id: None }
}

/// The owner that the leaf elements at the start of `rest` describe, on top
/// of `acc`, and what follows them. The elements `DisplayName` and `ID` are
/// taken in any order, up to the next end tag; any other element is
/// refused.
pub open spec fn owner_fields(rest: Seq<XmlEvent>, acc: OwnerView) -> Option<
    (OwnerView, Seq<XmlEvent>),
>
    decreases rest.len(),
{
    if rest.len() == 0 {
        None
    } else if rest[0] is Close {
        Some((acc, rest))
    } else {
        match leaf_text(rest) {
            Some((text, after)) if after.len() < rest.len() => {
                if rest[0]->Open_0 == "DisplayName"@ {
                    owner_fields(after, OwnerView { display_name: Some(text), ..acc })
                } else if rest[0]->Open_0 == "ID"@ {
                    owner_fields(after, OwnerView { id: Some(text), ..acc })
                } else {
                    None
                }
            },
            _ => None,
        }
    }
}

/// Reads the fields of an owner up to the next end tag.
pub fn read_owner_fields(reader: &mut Reader) -> (r: Option<Owner>)
    requires
        old(reader).wf(),
    ensures
        final(reader).wf(),
        final(reader).all() == old(reader).all(),
        final(reader).position() >= old(reader).position(),
        match owner_fields(old(reader).rest(), no_owner()) {
            Some((owner, after)) => r is Some && r->0@ == owner && final(reader).rest() == after,
            None => r is None,
        },
{
    let mut acc = Owner { display_name: None, id: None };
    loop
        invariant
            reader.wf(),
            reader.all() == old(reader).all(),
            reader.position() >= old(reader).position(),
            owner_fields(old(reader).rest(), no_owner()) == owner_fields(reader.rest(), acc@),
        decreases reader.all().len() - reader.position(),
    {
        if reader.at_end() {
            return None;
        }
        if reader.at_close() {
            return Some(acc);
        }
        let name = match reader.peek_open() {
            Some(name) => name,
            None => {
                return None;
            },
        };
        let text = match reader.read_leaf() {
            Some(text) => text,
            None => {
                return None;
            },
        };
        if str_eq(name, "DisplayName") {
            acc.display_name = Some(text);
        } else if str_eq(name, "ID") {
            acc.id = Some(text);
        } else {
            return None;
        }
    }
}

/// Reading the two elements of an owner, written in either order, gives the
/// owner back and stops at the end tag that follows.
pub proof fn lemma_owner_fields(owner: Owner, id_first: bool, rest: Seq<XmlEvent>)
    requires
        rest.len() > 0,
        rest[0] is Close,
    ensures
        owner_fields(
            if id_first {
                optional_element_written("ID"@, option_text(owner.id)) + optional_element_written(
                    "DisplayName"@,
                    option_text(owner.display_name),
                )
            } else {
                optional_element_written("DisplayName"@, option_text(owner.display_name))
                    + optional_element_written("ID"@, option_text(owner.id))
            } + rest,
            no_owner(),
        ) == Some((owner@, rest)),
{
    reveal_strlit("DisplayName");
    reveal_strlit("ID");
    let id = optional_element_written("ID"@, option_text(owner.id));
    let display = optional_element_written("DisplayName"@, option_text(owner.display_name));
    let with_id = OwnerView { id: option_text(owner.id), ..no_owner() };
    let with_display = OwnerView { display_name: option_text(owner.display_name), ..no_owner() };
    assert(owner_fields(rest, owner@) == Some((owner@, rest)));
    if id_first {
        lemma_owner_step(display + rest, no_owner(), true, option_text(owner.id));
        lemma_owner_step(rest, with_id, false, option_text(owner.display_name));
        assert((id + display) + rest =~= id + (display + rest));
    } else {
        lemma_owner_step(id + rest, no_owner(), false, option_text(owner.display_name));
        lemma_owner_step(rest, with_display, true, option_text(owner.id));
        assert((display + id) + rest =~= display + (id + rest));
    }
}

/// Reading one optional element of an owner sets that field and goes on
/// with what follows.
pub proof fn lemma_owner_step(
    rest: Seq<XmlEvent>,
    acc: OwnerView,
    is_id: bool,
    value: Option<Seq<char>>,
)
    requires
        if is_id {
            acc.id is None
        } else {
            acc.display_name is None
        },
    ensures
        owner_fields(
            optional_element_written(
                if is_id {
                    "ID"@
                } else {
                    "DisplayName"@
                },
                value,
            ) + rest,
            acc,
        ) == owner_fields(
            rest,
            if is_id {
                OwnerView { id: value, ..acc }
            } else {
                OwnerView { display_name: value, ..acc }
            },
        ),
{
    reveal_strlit("DisplayName");
    reveal_strlit("ID");
    let name = if is_id {
        "ID"@
    } else {
        "DisplayName"@
    };
    assert(crate::xml::valid_name(name));
    match value {
        Some(text) => {
            lemma_leaf_text(name, text, rest);
        },
        None => {
            assert(optional_element_written(name, value) + rest =~= rest);
        },
    }
}

} // verus!
