//! The names of nodes, and where they can be reached.
use vstd::prelude::*;

verus! {

/// `a` comes before `b` in the lexicographic order of their bytes: at the
/// first byte where they differ `a`'s is smaller, or `a` is a proper prefix
/// of `b`.
pub open spec fn lex_lt(a: Seq<u8>, b: Seq<u8>) -> bool
    decreases a.len(),
{
    if a.len() == 0 {
        b.len() > 0
    } else if b.len() == 0 {
        false
    } else if a[0] != b[0] {
        a[0] < b[0]
    } else {
        lex_lt(a.skip(1), b.skip(1))
    }
}

/// The lexicographic order is a strict total order: of two different byte
/// strings exactly one comes first, and none comes before itself.
pub proof fn lemma_lex_lt_total(a: Seq<u8>, b: Seq<u8>)
    ensures
        a == b ==> !lex_lt(a, b),
        a != b ==> (lex_lt(a, b) <==> !lex_lt(b, a)),
    decreases a.len(),
{
    if a.len() > 0 && b.len() > 0 && a[0] == b[0] {
        lemma_lex_lt_total(a.skip(1), b.skip(1));
        if a.skip(1) == b.skip(1) {
            assert(a =~= seq![a[0]] + a.skip(1));
            assert(b =~= seq![b[0]] + b.skip(1));
        }
    }
    if a.len() == 0 && b.len() == 0 {
        assert(a =~= b);
    }
}

/// Comparing from position `i` on decides the same as comparing from the
/// start, once the first `i` bytes agree.
proof fn lemma_lex_lt_skip(a: Seq<u8>, b: Seq<u8>, i: int)
    requires
        0 <= i <= a.len(),
        i <= b.len(),
        a.take(i) == b.take(i),
    ensures
        lex_lt(a, b) == lex_lt(a.skip(i), b.skip(i)),
    decreases i,
{
    if i > 0 {
        assert(a[0] == a.take(i)[0]);
        assert(b[0] == b.take(i)[0]);
        assert(a.skip(1).take(i - 1) =~= a.take(i).skip(1));
        assert(b.skip(1).take(i - 1) =~= b.take(i).skip(1));
        lemma_lex_lt_skip(a.skip(1), b.skip(1), i - 1);
        assert(a.skip(1).skip(i - 1) =~= a.skip(i));
        assert(b.skip(1).skip(i - 1) =~= b.skip(i));
    } else {
        assert(a.skip(0) =~= a);
        assert(b.skip(0) =~= b);
    }
}

/// Byte strings are ordered by the first byte at which they differ,
/// whatever their lengths: `node-10` comes before `node-9`, since `1` comes
/// before `9`.
pub proof fn lemma_lex_lt_is_byte_order(a: Seq<u8>, b: Seq<u8>, i: int)
    requires
        0 <= i < a.len(),
        i < b.len(),
        a.take(i) == b.take(i),
        a[i] != b[i],
    ensures
        lex_lt(a, b) == (a[i] < b[i]),
        lex_lt(b, a) == (b[i] < a[i]),
{
    lemma_lex_lt_skip(a, b, i);
    lemma_lex_lt_skip(b, a, i);
    assert(a.skip(i)[0] == a[i]);
    assert(b.skip(i)[0] == b[i]);
}

/// A proper prefix comes before what it is a prefix of, and nothing comes
/// before its own prefix.
pub proof fn lemma_lex_lt_prefix(a: Seq<u8>, b: Seq<u8>)
    ensures
        a.len() <= b.len() && b.take(a.len() as int) == a ==> lex_lt(a, b) == (a.len() < b.len()),
{
    if a.len() <= b.len() && b.take(a.len() as int) == a {
        assert(a.take(a.len() as int) =~= a);
        lemma_lex_lt_skip(a, b, a.len() as int);
        assert(a.skip(a.len() as int).len() == 0);
    }
}

/// Whether `a` comes before `b`, byte by byte.
fn compare_bytes(a: &[u8], b: &[u8]) -> (r: bool)
    ensures
        r == lex_lt(a@, b@),
{
    let mut i: usize = 0;
    while i < a.len() && i < b.len()
        invariant
            i <= a.len(),
            i <= b.len(),
            a@.take(i as int) == b@.take(i as int),
        decreases a.len() - i,
    {
        if a[i] != b[i] {
            proof {
                lemma_lex_lt_skip(a@, b@, i as int);
            }
            return a[i] < b[i];
        }
        assert(a@.take(i + 1) =~= a@.take(i as int).push(a@[i as int]));
        assert(b@.take(i + 1) =~= b@.take(i as int).push(b@[i as int]));
        i = i + 1;
    }
    proof {
        lemma_lex_lt_skip(a@, b@, i as int);
    }
    i < b.len()
}

/// Whether `a` comes before `b` in the lexicographic order of their bytes:
/// the first byte at which they differ decides, whatever their lengths, and
/// a proper prefix comes first.
pub fn bytes_lt(a: &[u8], b: &[u8]) -> (r: bool)
    ensures
        r == lex_lt(a@, b@),
        forall|i: int|
            0 <= i < a@.len() && i < b@.len() && a@.take(i) == b@.take(i) && a@[i] != b@[i] ==> r == (
            #[trigger] a@[i] < b@[i]),
        a@.len() <= b@.len() && b@.take(a@.len() as int) == a@ ==> r == (a@.len() < b@.len()),
        b@.len() <= a@.len() && a@.take(b@.len() as int) == b@ ==> !r,
{
    let r = compare_bytes(a, b);
    proof {
        assert forall|i: int|
            0 <= i < a@.len() && i < b@.len() && a@.take(i) == b@.take(i) && a@[i] != b@[i] implies lex_lt(
            a@,
            b@,
        ) == (#[trigger] a@[i] < b@[i]) by {
            lemma_lex_lt_is_byte_order(a@, b@, i);
        }
        lemma_lex_lt_prefix(a@, b@);
        lemma_lex_lt_prefix(b@, a@);
        lemma_lex_lt_total(a@, b@);
        if b@.len() <= a@.len() && a@.take(b@.len() as int) == b@ && a@.len() == b@.len() {
            assert(a@ =~= b@);
        }
    }
    r
}

/// The name of a node.
///
/// A name names a node rather than locating it: how a name maps to a network
/// address is resolved by the connection layer, so nodes can move. Names are
/// ordered by their bytes, as strings are.
#[derive(Debug, PartialEq, Eq, PartialOrd, Ord, Hash)]
pub struct NodeName {
    name: String,
}

impl View for NodeName {
    type V = Seq<char>;

    closed spec fn view(&self) -> Seq<char> {
        self.name@
    }
}

impl Clone for NodeName {
    fn clone(&self) -> (r: Self)
        ensures
            r == *self,
    {
        NodeName { name: self.name.clone() }
    }
}

/// The bytes of a name, in UTF-8, which is what names are ordered by.
pub open spec fn name_bytes(name: Seq<char>) -> Seq<u8> {
    vstd::utf8::encode_utf8(name)
}

/// `a` comes before `b` in the order of node names.
pub open spec fn name_lt(a: Seq<char>, b: Seq<char>) -> bool {
    lex_lt(name_bytes(a), name_bytes(b))
}

/// Node names are ordered totally: of two different names exactly one comes
/// first.
pub proof fn lemma_name_order_total(a: Seq<char>, b: Seq<char>)
    ensures
        a == b ==> !name_lt(a, b),
        a != b ==> (name_lt(a, b) <==> !name_lt(b, a)),
{
    lemma_lex_lt_total(name_bytes(a), name_bytes(b));
    if a != b {
        vstd::utf8::encode_utf8_decode_utf8(a);
        vstd::utf8::encode_utf8_decode_utf8(b);
    }
}

impl NodeName {
    /// The node named `name`.
    pub fn new(name: &str) -> (r: NodeName)
        ensures
            r@ == name@,
    {
        NodeName { name: name.to_owned() }
    }

    /// The node named by the string `name`.
    pub fn from_string(name: String) -> (r: NodeName)
        ensures
            r@ == name@,
    {
        NodeName { name }
    }

    /// The name as a string.
    pub fn as_str(&self) -> (r: &str)
        ensures
            r@ == self@,
    {
        self.name.as_str()
    }

    /// Whether both name the same node.
    pub fn same(&self, other: &NodeName) -> (r: bool)
        ensures
            r == (self@ == other@),
    {
        self.name == other.name
    }

    /// Whether this name comes before `other`.
    pub fn precedes(&self, other: &NodeName) -> (r: bool)
        ensures
            r == name_lt(self@, other@),
    {
        bytes_lt(self.name.as_str().as_bytes(), other.name.as_str().as_bytes())
    }
}

/// Where a node can be reached, in terms its transport understands: for a
/// socket transport `host:port`, for others a URL, a key or a name. The
/// cluster only carries it around.
#[derive(Debug, PartialEq, Eq, Hash)]
pub struct NodeAddr {
    addr: String,
}

impl View for NodeAddr {
    type V = Seq<char>;

    closed spec fn view(&self) -> Seq<char> {
        self.addr@
    }
}

impl Clone for NodeAddr {
    fn clone(&self) -> (r: Self)
        ensures
            r == *self,
    {
        NodeAddr { addr: self.addr.clone() }
    }
}

impl NodeAddr {
    /// The address `addr`.
    pub fn new(addr: &str) -> (r: NodeAddr)
        ensures
            r@ == addr@,
    {
        NodeAddr { addr: addr.to_owned() }
    }

    /// The address written out in `addr`.
    pub fn from_string(addr: String) -> (r: NodeAddr)
        ensures
            r@ == addr@,
    {
        NodeAddr { addr }
    }

    /// The address as a string.
    pub fn as_str(&self) -> (r: &str)
        ensures
            r@ == self@,
    {
        self.addr.as_str()
    }

    /// Whether both are the same address.
    pub fn same(&self, other: &NodeAddr) -> (r: bool)
        ensures
            r == (self@ == other@),
    {
        self.addr == other.addr
    }
}

} // verus!
