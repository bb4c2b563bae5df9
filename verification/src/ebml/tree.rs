//! Building, searching, changing, reading and writing element trees.

use vstd::prelude::*;
use vstd::string::*;

use crate::ebml::element::{Body, Element};
#[allow(unused_imports)]
use crate::ebml::element::{lemma_nodes_index, lemma_nodes_len, node_of, nodes_of};
use crate::ebml::crc::{crc32, push_le4};
use crate::ebml::id;
use crate::ebml::node::is_master;
use crate::ebml::value::{read_float, read_string, read_uint, uint_bytes, FloatBits};
use crate::ebml::vint::{read_id, read_size, size_len, write_id, write_size_with_len, UNKNOWN};
#[allow(unused_imports)]
use crate::ebml::node::{
    after, encoded, encoded_all, first_of, first_with, has_checksum, lemma_first_of, lemma_first_with, parsed,
    payload, Node,
};
#[allow(unused_imports)]
use crate::ebml::value::uint_data;
#[allow(unused_imports)]
use crate::ebml::vint::{lemma_id_at_canonical, lemma_size_at_bound};

verus! {

broadcast use {lemma_nodes_len, lemma_nodes_index};

impl Clone for Element {
    fn clone(&self) -> (r: Element)
        ensures
            r@ == self@,
        decreases self,
    {
        match &self.body {
            Body::Data(bytes) => Element {
                id: self.id,
                width: self.width,
                body: Body::Data(copy_bytes(bytes)),
            },
            Body::Master(children) => {
                let mut copy: Vec<Element> = Vec::new();
                let mut i: usize = 0;
                while i < children.len()
                    invariant
                        i <= children@.len(),
                        self.body == Body::Master(*children),
                        copy@.len() == i,
                        nodes_of(copy@) == nodes_of(children@.take(i as int)),
                    decreases children@.len() - i,
                {
                    assert(decreases_to!(self => self.body));
                    assert(decreases_to!(self.body => self.body->Master_0));
                    assert(decreases_to!(self.body->Master_0 => self.body->Master_0@));
                    assert(decreases_to!(children@ => children@[i as int]));
                    let c = children[i].clone();
                    let ghost before = copy@;
                    copy.push(c);
                    i += 1;
                    assert(children@.take(i as int).drop_last() =~= children@.take(i - 1));
                    assert(copy@.drop_last() =~= before);
                }
                assert(children@.take(i as int) =~= children@);
                Element { id: self.id, width: self.width, body: Body::Master(copy) }
            },
        }
    }
}

/// A copy of `bytes`.
pub fn copy_bytes(bytes: &[u8]) -> (r: Vec<u8>)
    ensures
        r@ == bytes@,
{
    vstd::slice::slice_to_vec(bytes)
}

impl Element {
    pub fn master(id: u64, children: Vec<Element>) -> (r: Element)
        ensures
            r@ == Node::branch(id, nodes_of(children@)),
    {
        Element { id, width: 0, body: Body::Master(children) }
    }

    pub fn data(id: u64, data: Vec<u8>) -> (r: Element)
        ensures
            r@ == Node::leaf(id, data@),
    {
        Element { id, width: 0, body: Body::Data(data) }
    }

    pub fn uint_elem(id: u64, v: u64) -> (r: Element)
        ensures
            r@ == Node::leaf(id, uint_data(v)),
    {
        Element::data(id, uint_bytes(v))
    }

    pub fn string_elem(id: u64, s: &str) -> (r: Element)
        ensures
            r@ == Node::leaf(id, s.spec_bytes()),
    {
        Element::data(id, copy_bytes(s.as_bytes()))
    }

    pub fn children(&self) -> (r: &[Element])
        ensures
            nodes_of(r@) == self@.children(),
    {
        match &self.body {
            Body::Master(c) => c.as_slice(),
            Body::Data(_) => empty_children(),
        }
    }

    pub fn children_mut(&mut self) -> (r: Option<&mut Vec<Element>>)
        ensures
            match r {
                Some(c) => {
                    &&& old(self).body == Body::Master(*c)
                    &&& final(self).body == Body::Master(*final(c))
                    &&& final(self).id == old(self).id
                    &&& final(self).width == old(self).width
                },
                None => {
                    &&& old(self).body is Data
                    &&& *final(self) == *old(self)
                },
            },
    {
        match &mut self.body {
            Body::Master(c) => Some(c),
            Body::Data(_) => None,
        }
    }

    pub fn bytes(&self) -> (r: &[u8])
        ensures
            r@ == self@.bytes(),
    {
        match &self.body {
            Body::Data(d) => d.as_slice(),
            Body::Master(_) => empty_bytes(),
        }
    }

    /// The index of the first child with the ID.
    fn index_of(&self, id: u64) -> (r: Option<usize>)
        ensures
            match r {
                Some(i) => self@.has(id) && i == self@.position(id),
                None => !self@.has(id),
            },
    {
        let children = self.children();
        let mut i: usize = 0;
        while i < children.len()
            invariant
                i <= children@.len(),
                nodes_of(children@) == self@.children(),
                self@.position(id) == first_with(self@.children(), id, i as int),
            decreases children@.len() - i,
        {
            assert(nodes_of(children@)[i as int] == node_of(children@[i as int]));
            if children[i].id == id {
                return Some(i);
            }
            i += 1;
        }
        None
    }

    pub fn find(&self, id: u64) -> (r: Option<&Element>)
        ensures
            match r {
                Some(e) => self@.find(id) == Some(e@),
                None => self@.find(id) is None,
            },
    {
        match self.index_of(id) {
            Some(i) => {
                proof {
                    lemma_first_with(self@.children(), id, 0);
                }
                let children = self.children();
                assert(nodes_of(children@)[i as int] == node_of(children@[i as int]));
                Some(&children[i])
            },
            None => None,
        }
    }

    pub fn find_mut(&mut self, id: u64) -> (r: Option<&mut Element>)
        ensures
            match r {
                Some(e) => {
                    &&& old(self)@.find(id) == Some((*e)@)
                    &&& final(self)@ == old(self)@.with_children(
                        old(self)@.children().update(old(self)@.position(id), (*final(e))@),
                    )
                },
                None => {
                    &&& old(self)@.find(id) is None
                    &&& *final(self) == *old(self)
                },
            },
    {
        let found = self.index_of(id);
        let ghost before = *self;
        proof {
            lemma_first_with(self@.children(), id, 0);
        }
        match found {
            Some(i) => {
                match &mut self.body {
                    Body::Master(c) => {
                        assert(nodes_of(c@)[i as int] == node_of(c@[i as int]));
                        assert(forall|e: Element|
                            nodes_of(#[trigger] c@.update(i as int, e)) =~= nodes_of(c@).update(
                                i as int,
                                node_of(e),
                            ));
                        Some(&mut c[i])
                    },
                    Body::Data(_) => None,
                }
            },
            None => None,
        }
    }

    pub fn get_uint(&self, id: u64) -> (r: Option<u64>)
        ensures
            r == self@.uint(id),
    {
        match self.find(id) {
            Some(e) => Some(read_uint(e.bytes())),
            None => None,
        }
    }

    pub fn get_float(&self, id: u64) -> (r: Option<FloatBits>)
        ensures
            r == self@.float(id),
    {
        match self.find(id) {
            Some(e) => Some(read_float(e.bytes())),
            None => None,
        }
    }

    pub fn get_string(&self, id: u64) -> (r: Option<String>)
        ensures
            match r {
                Some(s) => self@.text(id) == Some(s@),
                None => self@.text(id) is None,
            },
    {
        match self.find(id) {
            Some(e) => Some(read_string(e.bytes())),
            None => None,
        }
    }

    /// Puts `data` into the first child with the ID, or a new child with it at
    /// `insert_at`. Returns true when the child already existed.
    fn set_data(&mut self, id: u64, data: Vec<u8>, insert_at: usize) -> (existed: bool)
        ensures
            final(self)@ == old(self)@.with_data(id, data@, insert_at as nat),
            existed == old(self)@.has(id),
    {
        let found = self.index_of(id);
        proof {
            lemma_first_with(self@.children(), id, 0);
        }
        let leaf = Element::data(id, data);
        match &mut self.body {
            Body::Master(c) => {
                let ghost before = c@;
                match found {
                    Some(i) => {
                        c.set(i, leaf);
                        assert(nodes_of(c@) =~= nodes_of(before).update(i as int, node_of(leaf)));
                        true
                    },
                    None => {
                        let at: usize = if insert_at <= c.len() {
                            insert_at
                        } else {
                            c.len()
                        };
                        c.insert(at, leaf);
                        assert(nodes_of(c@) =~= nodes_of(before).insert(at as int, node_of(leaf)));
                        assert(at == before.len() ==> nodes_of(c@) =~= nodes_of(before).push(
                            node_of(leaf),
                        ));
                        false
                    },
                }
            },
            Body::Data(_) => false,
        }
    }

    /// Replaces the value of `id`, or appends the element at `insert_at` when
    /// it is missing. Returns true when the element already existed.
    pub fn set_uint(&mut self, id: u64, v: u64, insert_at: usize) -> (existed: bool)
        ensures
            final(self)@ == old(self)@.with_data(id, uint_data(v), insert_at as nat),
            existed == old(self)@.has(id),
    {
        self.set_data(id, uint_bytes(v), insert_at)
    }

    pub fn set_string(&mut self, id: u64, s: &str, insert_at: usize)
        ensures
            final(self)@ == old(self)@.with_data(id, s.spec_bytes(), insert_at as nat),
    {
        let _ = self.set_data(id, copy_bytes(s.as_bytes()), insert_at);
    }

    /// Removes every child with the ID. Returns true when there was one.
    pub fn remove(&mut self, id: u64) -> (removed: bool)
        ensures
            final(self)@ == old(self)@.without(id),
            removed == old(self)@.has(id),
    {
        let found = self.index_of(id);
        match &mut self.body {
            Body::Master(c) => {
                let ghost all = nodes_of(c@);
                let ghost keep = |n: Node| n.id() != id;
                let n: usize = c.len();
                let mut seen: usize = 0;
                let mut i: usize = 0;
                proof {
                    reveal(Seq::filter);
                    assert(all.take(0).filter(keep) =~= Seq::<Node>::empty());
                    assert(nodes_of(c@) =~= all.take(0).filter(keep) + all.skip(0));
                }
                while seen < n
                    invariant
                        i <= seen <= n,
                        n == all.len(),
                        c@.len() == i + (n - seen),
                        keep == (|n: Node| n.id() != id),
                        i == all.take(seen as int).filter(keep).len(),
                        nodes_of(c@) == all.take(seen as int).filter(keep) + all.skip(seen as int),
                    decreases n - seen,
                {
                    let ghost before = c@;
                    let ghost kept = all.take(seen as int).filter(keep);
                    let ghost t = all.take(seen + 1);
                    proof {
                        reveal(Seq::filter);
                        assert(t.drop_last() =~= all.take(seen as int));
                        assert(nodes_of(before)[i as int] == all.skip(seen as int)[0]);
                        assert(nodes_of(before)[i as int] == node_of(before[i as int]));
                    }
                    if c[i].id == id {
                        let _ = c.remove(i);
                        assert(nodes_of(c@) =~= kept + all.skip(seen + 1)) by {
                            assert forall|j: int| 0 <= j < c@.len() implies nodes_of(c@)[j] == (kept
                                + all.skip(seen + 1))[j] by {
                                if j < i {
                                    assert(nodes_of(before)[j] == node_of(before[j]));
                                } else {
                                    assert(nodes_of(before)[j + 1] == node_of(before[j + 1]));
                                }
                            }
                        }
                    } else {
                        i += 1;
                        assert(nodes_of(c@) =~= kept.push(t.last()) + all.skip(seen + 1));
                    }
                    seen += 1;
                }
                assert(all.take(n as int) =~= all);
                assert(nodes_of(c@) =~= all.filter(keep));
                found.is_some()
            },
            Body::Data(_) => false,
        }
    }

    /// The payload of the element, with CRC-32 recomputed where one was
    /// present and Void padding dropped.
    pub fn payload_bytes(&self) -> (out: Vec<u8>)
        ensures
            out@ == payload(self@),
        decreases self, 0nat,
    {
        match &self.body {
            Body::Data(d) => copy_bytes(d),
            Body::Master(children) => {
                let ghost nodes = nodes_of(children@);
                let mut body: Vec<u8> = Vec::new();
                let mut has_crc: bool = false;
                let mut i: usize = 0;
                while i < children.len()
                    invariant
                        i <= children@.len(),
                        nodes == nodes_of(children@),
                        self.body == Body::Master(*children),
                        body@ == encoded_all(nodes.take(i as int)),
                        has_crc == has_checksum(nodes.take(i as int)),
                    decreases children@.len() - i,
                {
                    let ghost t = nodes.take(i + 1);
                    assert(t.drop_last() =~= nodes.take(i as int));
                    assert(nodes[i as int] == node_of(children@[i as int]));
                    assert(t[i as int] == nodes[i as int]);
                    let c = &children[i];
                    proof {
                        if has_crc {
                            let k = choose|k: int|
                                0 <= k < nodes.take(i as int).len() && (#[trigger] nodes.take(
                                    i as int,
                                )[k]).id() == id::CRC32;
                            assert(t[k] == nodes.take(i as int)[k]);
                        }
                        if has_checksum(t) && c.id != id::CRC32 {
                            let k = choose|k: int|
                                0 <= k < t.len() && (#[trigger] t[k]).id() == id::CRC32;
                            assert(nodes.take(i as int)[k] == t[k]);
                        }
                    }
                    if c.id == id::CRC32 {
                        has_crc = true;
                    } else if c.id != id::VOID {
                        assert(decreases_to!(self => self.body));
                        assert(decreases_to!(self.body => self.body->Master_0));
                        assert(decreases_to!(self.body->Master_0 => self.body->Master_0@));
                        assert(decreases_to!(children@ => children@[i as int]));
                        c.serialize(&mut body);
                    }
                    i += 1;
                }
                assert(nodes.take(i as int) =~= nodes);
                if has_crc {
                    let mut with_crc: Vec<u8> = Vec::new();
                    with_crc.push(id::CRC32 as u8);
                    with_crc.push(0x84);
                    push_le4(&mut with_crc, crc32(&body));
                    with_crc.append(&mut body);
                    assert(with_crc@ =~= payload(self@));
                    with_crc
                } else {
                    body
                }
            },
        }
    }

    /// Serializes the element, recomputing CRC-32 where one was present and
    /// dropping Void padding. Each size is as wide as it was where it was read.
    pub fn serialize(&self, out: &mut Vec<u8>)
        ensures
            final(out)@ == old(out)@ + encoded(self@),
        decreases self, 1nat,
    {
        let mut payload = self.payload_bytes();
        write_id(out, self.id);
        let size: u64 = payload.len() as u64;
        let shortest: usize = size_len(size);
        let width: usize = if shortest <= self.width && self.width <= 8 {
            self.width
        } else {
            shortest
        };
        write_size_with_len(out, size, width);
        out.append(&mut payload);
        assert(out@ =~= old(out)@ + encoded(self@));
    }

    pub fn to_bytes(&self) -> (out: Vec<u8>)
        ensures
            out@ == encoded(self@),
    {
        let mut out: Vec<u8> = Vec::new();
        self.serialize(&mut out);
        assert(out@ =~= encoded(self@));
        out
    }
}

/// Parses the element at the start of `buf`, and says where it ends.
fn parse_first(buf: &[u8]) -> (r: Result<(Element, usize), String>)
    ensures
        match r {
            Ok((e, end)) => first_of(buf@) == Ok::<(Node, int), Seq<char>>((e@, end as int)),
            Err(e) => first_of(buf@) == Err::<(Node, int), Seq<char>>(e@),
        },
    decreases buf@.len(), 0nat,
{
    let (eid, id_len) = match read_id(buf, 0) {
        Some(v) => v,
        None => return Err("bad element ID".to_owned()),
    };
    let (size, size_width) = match read_size(buf, id_len) {
        Some(v) => v,
        None => return Err("bad element size".to_owned()),
    };
    proof {
        lemma_id_at_canonical(buf@, 0);
        lemma_size_at_bound(buf@, id_len as int);
    }
    let start: usize = id_len + size_width;
    if size == UNKNOWN {
        return Err("unknown size inside a master element".to_owned());
    }
    if size > (buf.len() - start) as u64 {
        return Err("element runs past the end of its parent".to_owned());
    }
    let end: usize = start + size as usize;
    let payload = vstd::slice::slice_subrange(buf, start, end);
    if is_master(eid) {
        match parse_children(payload) {
            Ok(children) => Ok((Element { id: eid, width: size_width, body: Body::Master(children) }, end)),
            Err(e) => Err(e),
        }
    } else {
        Ok((Element { id: eid, width: size_width, body: Body::Data(copy_bytes(payload)) }, end))
    }
}

/// Parses the children of a master element from its payload.
pub fn parse_children(buf: &[u8]) -> (r: Result<Vec<Element>, String>)
    ensures
        match r {
            Ok(v) => parsed(buf@) == Ok::<Seq<Node>, Seq<char>>(nodes_of(v@)),
            Err(e) => parsed(buf@) == Err::<Seq<Node>, Seq<char>>(e@),
        },
    decreases buf@.len(), 1nat,
{
    let n: usize = buf.len();
    let mut out: Vec<Element> = Vec::new();
    let mut pos: usize = 0;
    assert(buf@.skip(0) =~= buf@);
    proof {
        lemma_after_nothing(parsed(buf@));
    }
    while pos < n
        invariant
            pos <= n,
            n == buf@.len(),
            parsed(buf@) == after(nodes_of(out@), parsed(buf@.skip(pos as int))),
        decreases n - pos,
    {
        let rest = vstd::slice::slice_subrange(buf, pos, n);
        assert(rest@ =~= buf@.skip(pos as int));
        proof {
            lemma_first_of(rest@);
        }
        match parse_first(rest) {
            Err(e) => return Err(e),
            Ok((el, end)) => {
                proof {
                    lemma_after_push(out@, el, parsed(rest@.skip(end as int)));
                    assert(rest@.skip(end as int) =~= buf@.skip(pos + end));
                }
                out.push(el);
                pos = pos + end;
            },
        }
    }
    proof {
        assert(buf@.skip(pos as int) =~= Seq::<u8>::empty());
        assert(nodes_of(out@) + Seq::<Node>::empty() =~= nodes_of(out@));
    }
    Ok(out)
}

proof fn lemma_after_nothing(rest: Result<Seq<Node>, Seq<char>>)
    ensures
        after(nodes_of(Seq::<Element>::empty()), rest) == rest,
{
    if let Ok(more) = rest {
        assert(nodes_of(Seq::<Element>::empty()) + more =~= more);
    }
}

proof fn lemma_after_push(s: Seq<Element>, e: Element, rest: Result<Seq<Node>, Seq<char>>)
    ensures
        after(nodes_of(s), after(seq![e@], rest)) == after(nodes_of(s.push(e)), rest),
{
    assert(s.push(e).drop_last() =~= s);
    if let Ok(more) = rest {
        assert(nodes_of(s) + (seq![e@] + more) =~= nodes_of(s.push(e)) + more);
    }
}

fn empty_children<'a>() -> (r: &'a [Element])
    ensures
        r@ == Seq::<Element>::empty(),
{
    let r: &'a [Element; 0] = &[];
    assert(r@ =~= Seq::<Element>::empty());
    r
}

fn empty_bytes<'a>() -> (r: &'a [u8])
    ensures
        r@ == Seq::<u8>::empty(),
{
    let r: &'a [u8; 0] = &[];
    assert(r@ =~= Seq::<u8>::empty());
    r
}

} // verus!
