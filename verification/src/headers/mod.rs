//! A header mapping whose names are compared without regard to ASCII case.

pub mod names;

use vstd::prelude::*;
use vstd::string::*;
use crate::text::{eq_ignoring_case, lower, same_ignoring_case};

verus! {

/// A header as a pair of texts: name, then value.
pub type HeaderView = (Seq<char>, Seq<char>);

/// The position of the first header named `name`, case ignored.
pub open spec fn first_match(headers: Seq<HeaderView>, name: Seq<char>) -> Option<int>
    decreases headers.len(),
{
    if headers.len() == 0 {
        None
    } else {
        match first_match(headers.drop_last(), name) {
            Some(i) => Some(i),
            None => if same_ignoring_case(headers.last().0, name) {
                Some(headers.len() - 1)
            } else {
                None
            },
        }
    }
}

/// The value of the first header named `name`, case ignored.
pub open spec fn lookup(headers: Seq<HeaderView>, name: Seq<char>) -> Option<Seq<char>> {
    match first_match(headers, name) {
        Some(i) => Some(headers[i].1),
        None => None,
    }
}

/// The headers after `name` has been set to `value`: the header of that name
/// is replaced where it stands, or a new one is added at the end.
pub open spec fn with_header(headers: Seq<HeaderView>, name: Seq<char>, value: Seq<char>) -> Seq<
    HeaderView,
> {
    match first_match(headers, name) {
        Some(i) => headers.update(i, (name, value)),
        None => headers.push((name, value)),
    }
}

/// No two headers have the same name, case ignored.
pub open spec fn distinct_names(headers: Seq<HeaderView>) -> bool {
    forall|i: int, j: int|
        0 <= i < j < headers.len() ==> !same_ignoring_case(
            (#[trigger] headers[i]).0,
            (#[trigger] headers[j]).0,
        )
}

/// What `first_match` finds: a header of that name with none before it, or
/// that there is none at all.
pub proof fn lemma_first_match(headers: Seq<HeaderView>, name: Seq<char>)
    ensures
        match first_match(headers, name) {
            Some(i) => {
                &&& 0 <= i < headers.len()
                &&& same_ignoring_case(headers[i].0, name)
                &&& forall|j: int|
                    0 <= j < i ==> !same_ignoring_case((#[trigger] headers[j]).0, name)
            },
            None => forall|j: int|
                0 <= j < headers.len() ==> !same_ignoring_case((#[trigger] headers[j]).0, name),
        },
    decreases headers.len(),
{
    if headers.len() > 0 {
        lemma_first_match(headers.drop_last(), name);
        let shorter = headers.drop_last();
        assert forall|j: int| 0 <= j < shorter.len() implies shorter[j] == headers[j] by {}
        match first_match(shorter, name) {
            Some(i) => {
                assert forall|j: int| 0 <= j < i implies !same_ignoring_case(
                    (#[trigger] headers[j]).0,
                    name,
                ) by {
                    assert(shorter[j] == headers[j]);
                }
            },
            None => {
                assert forall|j: int| 0 <= j < headers.len() - 1 implies !same_ignoring_case(
                    (#[trigger] headers[j]).0,
                    name,
                ) by {
                    assert(shorter[j] == headers[j]);
                }
            },
        }
    }
}

/// Names that equal a third name, case ignored, equal each other.
pub proof fn lemma_same_name(a: Seq<char>, b: Seq<char>, c: Seq<char>)
    requires
        same_ignoring_case(a, c),
        same_ignoring_case(b, c),
    ensures
        same_ignoring_case(a, b),
{
    assert forall|i: int| 0 <= i < a.len() implies lower(#[trigger] a[i]) == lower(b[i]) by {
        assert(lower(a[i]) == lower(c[i]));
        assert(lower(b[i]) == lower(c[i]));
    }
}

/// Setting a header keeps the names distinct, and the header then reads as
/// the value set.
pub proof fn lemma_with_header(headers: Seq<HeaderView>, name: Seq<char>, value: Seq<char>)
    requires
        distinct_names(headers),
    ensures
        distinct_names(with_header(headers, name, value)),
        lookup(with_header(headers, name, value), name) == Some(value),
{
    lemma_first_match(headers, name);
    let after = with_header(headers, name, value);
    assert(same_ignoring_case(name, name));
    match first_match(headers, name) {
        Some(k) => {
            assert forall|i: int, j: int| 0 <= i < j < after.len() implies !same_ignoring_case(
                (#[trigger] after[i]).0,
                (#[trigger] after[j]).0,
            ) by {
                if i == k {
                    if same_ignoring_case(name, headers[j].0) {
                        lemma_same_name(headers[j].0, headers[k].0, name);
                        lemma_symmetric(headers[j].0, headers[k].0);
                    }
                } else if j == k {
                    if same_ignoring_case(headers[i].0, name) {
                        lemma_same_name(headers[i].0, headers[k].0, name);
                    }
                }
            }
        },
        None => {
            assert forall|i: int, j: int| 0 <= i < j < after.len() implies !same_ignoring_case(
                (#[trigger] after[i]).0,
                (#[trigger] after[j]).0,
            ) by {
                if j == headers.len() {
                    assert(!same_ignoring_case(headers[i].0, name));
                }
            }
        },
    }
    lemma_first_match(after, name);
    match first_match(after, name) {
        Some(m) => {
            if after[m] != (name, value) {
                let k = if first_match(headers, name) is Some {
                    first_match(headers, name)->0
                } else {
                    headers.len() as int
                };
                assert(after[k] == (name, value));
                if m < k {
                    assert(after[m] == headers[m]);
                } else {
                    assert(!same_ignoring_case(after[k].0, name));
                }
            }
        },
        None => {
            let k = if first_match(headers, name) is Some {
                first_match(headers, name)->0
            } else {
                headers.len() as int
            };
            assert(after[k] == (name, value));
        },
    }
}

/// Equality with case ignored does not depend on the order of the two texts.
pub proof fn lemma_symmetric(a: Seq<char>, b: Seq<char>)
    requires
        same_ignoring_case(a, b),
    ensures
        same_ignoring_case(b, a),
{
    assert forall|i: int| 0 <= i < b.len() implies lower(#[trigger] b[i]) == lower(a[i]) by {
        assert(lower(a[i]) == lower(b[i]));
    }
}

/// A header mapping. Names are compared without regard to ASCII case, and no
/// name occurs twice.
pub struct Headers {
    entries: Vec<(String, String)>,
}

impl View for Headers {
    type V = Seq<HeaderView>;

    closed spec fn view(&self) -> Seq<HeaderView> {
        Seq::new(self.entries@.len(), |i: int| (self.entries@[i].0@, self.entries@[i].1@))
    }
}

impl Headers {
    /// No name occurs twice, case ignored.
    pub open spec fn wf(&self) -> bool {
        distinct_names(self@)
    }

    /// An empty mapping.
    pub fn new() -> (h: Headers)
        ensures
            h.wf(),
            h@ == Seq::<HeaderView>::empty(),
    {
        let h = Headers { entries: Vec::new() };
        assert(h@ =~= Seq::<HeaderView>::empty());
        h
    }

    /// The number of headers.
    pub fn len(&self) -> (n: usize)
        ensures
            n == self@.len(),
    {
        self.entries.len()
    }

    fn position(&self, name: &str) -> (r: Option<usize>)
        ensures
            match r {
                Some(i) => first_match(self@, name@) == Some(i as int) && i < self@.len(),
                None => first_match(self@, name@) is None,
            },
    {
        let mut i: usize = 0;
        assert(self@.take(0) =~= Seq::<HeaderView>::empty());
        while i < self.entries.len()
            invariant
                i <= self.entries.len(),
                self.entries.len() == self@.len(),
                first_match(self@.take(i as int), name@) is None,
            decreases self.entries.len() - i,
        {
            let ghost next = self@.take(i + 1);
            assert(next.drop_last() =~= self@.take(i as int));
            assert(next.last() == self@[i as int]);
            if eq_ignoring_case(self.entries[i].0.as_str(), name) {
                proof {
                    lemma_found_stays(self@, name@, i + 1);
                }
                return Some(i);
            }
            i += 1;
        }
        assert(self@.take(i as int) =~= self@);
        None
    }

    /// The value of the header named `name`, case ignored.
    pub fn get(&self, name: &str) -> (r: Option<&str>)
        ensures
            match r {
                Some(value) => lookup(self@, name@) == Some(value@),
                None => lookup(self@, name@) is None,
            },
    {
        match self.position(name) {
            Some(i) => Some(self.entries[i].1.as_str()),
            None => None,
        }
    }

    /// Sets the header `name` to `value`, in place of any header of that
    /// name, case ignored.
    pub fn set(&mut self, name: &str, value: String)
        requires
            old(self).wf(),
        ensures
            final(self).wf(),
            final(self)@ == with_header(old(self)@, name@, value@),
    {
        proof {
            lemma_with_header(self@, name@, value@);
        }
        let entry = (String::from_str(name), value);
        match self.position(name) {
            Some(i) => {
                self.entries.set(i, entry);
                assert(self@ =~= with_header(old(self)@, name@, value@));
            },
            None => {
                self.entries.push(entry);
                assert(self@ =~= with_header(old(self)@, name@, value@));
            },
        }
    }
}

/// A match within a prefix is the match of the whole.
pub proof fn lemma_found_stays(headers: Seq<HeaderView>, name: Seq<char>, n: int)
    requires
        0 <= n <= headers.len(),
        first_match(headers.take(n), name) is Some,
    ensures
        first_match(headers, name) == first_match(headers.take(n), name),
    decreases headers.len() - n,
{
    if n == headers.len() {
        assert(headers.take(n) =~= headers);
    } else {
        assert(headers.take(n + 1).drop_last() =~= headers.take(n));
        lemma_found_stays(headers, name, n + 1);
    }
}

} // verus!
