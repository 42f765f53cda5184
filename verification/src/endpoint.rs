//! Link endpoints: a node and one of its interfaces, written `node:interface`.

use vstd::prelude::*;
use vstd::string::{StringExecFns, StrSliceExecFns};
use crate::duplicate::Duplicate;
use crate::text::chars_of;

verus! {

/// One end of a link.
#[derive(Debug, Clone)]
pub struct Endpoint {
    pub node: String,
    pub interface: String,
}

/// The mathematical form of an [`Endpoint`].
pub struct EndpointView {
    pub node: Seq<char>,
    pub interface: Seq<char>,
}

impl DeepView for Endpoint {
    type V = EndpointView;

    open spec fn deep_view(&self) -> EndpointView {
        EndpointView { node: self.node@, interface: self.interface@ }
    }
}

impl View for Endpoint {
    type V = EndpointView;

    open spec fn view(&self) -> EndpointView {
        self.deep_view()
    }
}

/// The text splits at `i`: a colon stands there, and nowhere else.
pub open spec fn splits_at(s: Seq<char>, i: int) -> bool {
    &&& 0 <= i < s.len()
    &&& s[i] == ':'
    &&& !s.take(i).contains(':')
    &&& !s.skip(i + 1).contains(':')
}

/// The endpoint that a text names: the text must hold exactly one colon, and
/// the node stands before it, the interface after it. Either may be empty.
pub open spec fn parse_endpoint(s: Seq<char>) -> Option<EndpointView> {
    if exists|i: int| splits_at(s, i) {
        let i = choose|i: int| splits_at(s, i);
        Some(EndpointView { node: s.take(i), interface: s.skip(i + 1) })
    } else {
        None
    }
}

/// The text that names an endpoint.
pub open spec fn format_endpoint(e: EndpointView) -> Seq<char> {
    e.node + seq![':'] + e.interface
}

/// A text splits at one place at most.
pub proof fn lemma_split_unique(s: Seq<char>, i: int, j: int)
    requires
        splits_at(s, i),
        splits_at(s, j),
    ensures
        i == j,
{
    if i < j {
        assert(s.take(j)[i] == ':');
    } else if j < i {
        assert(s.take(i)[j] == ':');
    }
}

/// Parsing the text of an endpoint gives the endpoint back, provided that
/// neither of its names holds a colon.
pub proof fn lemma_endpoint_round_trip(e: EndpointView)
    requires
        !e.node.contains(':'),
        !e.interface.contains(':'),
    ensures
        parse_endpoint(format_endpoint(e)) == Some(e),
{
    let s = format_endpoint(e);
    let i = e.node.len() as int;
    assert(s.take(i) =~= e.node);
    assert(s.skip(i + 1) =~= e.interface);
    assert(splits_at(s, i));
    let j = choose|j: int| splits_at(s, j);
    lemma_split_unique(s, i, j);
}

/// A name with a colon in it does not come back from its text: the text has
/// two colons or more, and names no endpoint.
pub proof fn lemma_endpoint_colon_rejected(e: EndpointView)
    requires
        e.node.contains(':') || e.interface.contains(':'),
    ensures
        parse_endpoint(format_endpoint(e)) is None,
{
    let s = format_endpoint(e);
    let mid = e.node.len() as int;
    if exists|i: int| splits_at(s, i) {
        let i = choose|i: int| splits_at(s, i);
        // two different colons: the one in the middle and one inside a name
        let k = if e.node.contains(':') {
            e.node.index_of(':')
        } else {
            mid + 1 + e.interface.index_of(':')
        };
        assert(s[k] == ':' && s[mid] == ':' && k != mid);
        let other = if i == k {
            mid
        } else {
            k
        };
        if other < i {
            assert(s.take(i)[other] == ':');
        } else {
            assert(s.skip(i + 1)[other - i - 1] == ':');
        }
    }
}

impl Endpoint {
    /// Reads an endpoint from its text. Fails unless the text holds exactly one
    /// colon.
    pub fn try_from(value: &str) -> (r: Result<Endpoint, ()>)
        ensures
            match r {
                Ok(e) => parse_endpoint(value@) == Some(e@),
                Err(_) => parse_endpoint(value@) is None,
            },
    {
        let chars = chars_of(value);
        let n = chars.len();
        let mut i: usize = 0;
        while i < n && chars[i] != ':'
            invariant
                i <= n,
                n == chars@.len(),
                forall|j: int| 0 <= j < i ==> chars@[j] != ':',
            decreases n - i,
        {
            i += 1;
        }
        if i == n {
            // no colon at all
            assert forall|k: int| !splits_at(value@, k) by {}
            return Err(());
        }
        let mut j: usize = i + 1;
        while j < n && chars[j] != ':'
            invariant
                i < j <= n,
                n == chars@.len(),
                forall|k: int| i < k < j ==> chars@[k] != ':',
            decreases n - j,
        {
            j += 1;
        }
        if j < n {
            // a second colon
            assert forall|k: int| !splits_at(value@, k) by {
                if splits_at(value@, k) {
                    if k == i as int {
                        assert(value@.skip(k + 1)[j - k - 1] == ':');
                    } else if k < i {
                        assert(value@.skip(k + 1)[i - k - 1] == ':');
                    } else {
                        assert(value@.take(k)[i as int] == ':');
                    }
                }
            }
            return Err(());
        }
        let node = String::from_str(value.substring_char(0, i));
        let interface = String::from_str(value.substring_char(i + 1, n));
        proof {
            assert(value@.subrange(0, i as int) =~= value@.take(i as int));
            assert(value@.subrange(i + 1, n as int) =~= value@.skip(i + 1));
            assert(splits_at(value@, i as int));
            let c = choose|c: int| splits_at(value@, c);
            lemma_split_unique(value@, i as int, c);
        }
        Ok(Endpoint { node, interface })
    }

    /// The text of the endpoint: the node, a colon, the interface.
    pub fn to_text(&self) -> (r: String)
        ensures
            r@ == format_endpoint(self@),
    {
        proof {
            reveal_strlit(":");
        }
        let mut out = self.node.clone();
        out.append(":");
        out.append(self.interface.as_str());
        assert(out@ =~= format_endpoint(self@));
        out
    }
}

impl Default for Endpoint {
    fn default() -> (r: Endpoint)
        ensures
            r@ == (EndpointView { node: Seq::empty(), interface: Seq::empty() }),
    {
        Endpoint { node: String::new(), interface: String::new() }
    }
}

impl Duplicate for Endpoint {
    fn duplicate(&self) -> (r: Self) {
        Endpoint { node: self.node.clone(), interface: self.interface.clone() }
    }
}

} // verus!
