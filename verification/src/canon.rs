//! Canonicalization: turning a generic parsed value tree, as a JSON or YAML
//! parser delivers it, into a canonical node. Non-string mapping keys and
//! tagged values are rejected, numbers must be finite, and object keys
//! deduplicate last-wins and come out sorted.
use crate::errors::CanonicalizeError;
use crate::node::{node_wf, view_node, Node, NodeV};
use crate::number::{finite_bits, Number};
use crate::strutil::{str_le_exec, str_lt, CloneString};
use vstd::prelude::*;

verus! {

/// A generic value tree, as an external parser delivers it. Mapping keys
/// are whole values, so that non-string keys can be represented (and then
/// rejected). A tagged value carries a YAML tag.
#[derive(Debug)]
pub enum RawValue {
    /// A null value.
    Null,
    /// A boolean.
    Bool(bool),
    /// A number: binary64 bit pattern and canonical decimal text.
    Number {
        /// The IEEE 754 binary64 bit pattern.
        bits: u64,
        /// The canonical decimal rendering (used in error messages and
        /// carried into the node).
        text: String,
    },
    /// A string.
    String(String),
    /// A sequence of values.
    Array(Vec<RawValue>),
    /// A mapping from keys to values, in source order.
    Object(Vec<(RawValue, RawValue)>),
    /// A tagged value.
    Tagged {
        /// The tag identifier.
        tag: String,
        /// The tagged value.
        value: Box<RawValue>,
    },
}

/// The abstract value of a raw tree.
pub enum RawV {
    /// A null value.
    Null,
    /// A boolean.
    Bool(bool),
    /// A number.
    Num {
        /// The IEEE 754 binary64 bit pattern.
        bits: u64,
        /// The canonical decimal rendering.
        text: Seq<char>,
    },
    /// A string.
    Str(Seq<char>),
    /// A sequence of values.
    Arr(Seq<RawV>),
    /// A mapping, in source order.
    Mapping(Seq<(RawV, RawV)>),
    /// A tagged value.
    Tagged(Seq<char>, Box<RawV>),
}

/// The abstract value of a raw tree.
pub open spec fn view_raw(r: RawValue) -> RawV
    decreases r,
{
    match r {
        RawValue::Null => RawV::Null,
        RawValue::Bool(b) => RawV::Bool(b),
        RawValue::Number { bits, text } => RawV::Num { bits, text: text@ },
        RawValue::String(s) => RawV::Str(s@),
        RawValue::Array(items) => {
            proof {
                assert(decreases_to!(r => items));
                assert(decreases_to!(items => items@));
            }
            RawV::Arr(view_raws(items@))
        },
        RawValue::Object(pairs) => {
            proof {
                assert(decreases_to!(r => pairs));
                assert(decreases_to!(pairs => pairs@));
            }
            RawV::Mapping(view_raw_pairs(pairs@))
        },
        RawValue::Tagged { tag, value } => {
            proof {
                assert(decreases_to!(r => value));
            }
            RawV::Tagged(tag@, Box::new(view_raw(*value)))
        },
    }
}

/// The abstract values of a sequence of raw trees, elementwise.
pub open spec fn view_raws(items: Seq<RawValue>) -> Seq<RawV>
    decreases items,
{
    if items.len() == 0 {
        Seq::empty()
    } else {
        proof {
            broadcast use vstd::seq::axiom_seq_subrange_decreases;

            assert(decreases_to!(items => items.subrange(0, items.len() - 1)));
        }
        view_raws(items.subrange(0, items.len() - 1)).push(view_raw(items.last()))
    }
}

/// The abstract values of a sequence of raw pairs, elementwise.
pub open spec fn view_raw_pairs(pairs: Seq<(RawValue, RawValue)>) -> Seq<(RawV, RawV)>
    decreases pairs,
{
    if pairs.len() == 0 {
        Seq::empty()
    } else {
        proof {
            broadcast use vstd::seq::axiom_seq_subrange_decreases;

            assert(decreases_to!(pairs => pairs.subrange(0, pairs.len() - 1)));
            assert(decreases_to!(pairs => pairs.last()));
        }
        view_raw_pairs(pairs.subrange(0, pairs.len() - 1)).push(
            (view_raw(pairs.last().0), view_raw(pairs.last().1)),
        )
    }
}

/// The elementwise raw view keeps lengths and maps each element.
pub broadcast proof fn lemma_view_raws(items: Seq<RawValue>)
    ensures
        (#[trigger] view_raws(items)).len() == items.len(),
        forall|i: int|
            0 <= i < items.len() ==> #[trigger] view_raws(items)[i] == view_raw(items[i]),
    decreases items.len(),
{
    if items.len() > 0 {
        lemma_view_raws(items.subrange(0, items.len() - 1));
        assert forall|i: int| 0 <= i < items.len() implies #[trigger] view_raws(items)[i]
            == view_raw(items[i]) by {
            if i < items.len() - 1 {
                assert(items.subrange(0, items.len() - 1)[i] == items[i]);
            }
        }
    }
}

/// The elementwise raw-pair view keeps lengths and maps each pair.
pub broadcast proof fn lemma_view_raw_pairs(pairs: Seq<(RawValue, RawValue)>)
    ensures
        (#[trigger] view_raw_pairs(pairs)).len() == pairs.len(),
        forall|i: int|
            0 <= i < pairs.len() ==> #[trigger] view_raw_pairs(pairs)[i] == (view_raw(
                pairs[i].0,
            ), view_raw(pairs[i].1)),
    decreases pairs.len(),
{
    if pairs.len() > 0 {
        lemma_view_raw_pairs(pairs.subrange(0, pairs.len() - 1));
        assert forall|i: int| 0 <= i < pairs.len() implies #[trigger] view_raw_pairs(pairs)[i] == (
        view_raw(pairs[i].0), view_raw(pairs[i].1)) by {
            if i < pairs.len() - 1 {
                assert(pairs.subrange(0, pairs.len() - 1)[i] == pairs[i]);
            }
        }
    }
}

impl View for RawValue {
    type V = RawV;

    open spec fn view(&self) -> RawV {
        view_raw(*self)
    }
}

/// The ways canonicalization can fail, abstractly.
pub enum CanonErr {
    /// A number that is not finite; carries its text.
    NotFinite(Seq<char>),
    /// A mapping key that is not a string; carries a description.
    NonStringKey(Seq<char>),
    /// A tagged value; carries the tag.
    Tag(Seq<char>),
}

/// A short description of a raw value's kind, used when a mapping key is
/// not a string.
pub open spec fn raw_kind_name(r: RawV) -> Seq<char> {
    match r {
        RawV::Null => "null"@,
        RawV::Bool(_) => "bool"@,
        RawV::Num { .. } => "number"@,
        RawV::Str(_) => "string"@,
        RawV::Arr(_) => "sequence"@,
        RawV::Mapping(_) => "mapping"@,
        RawV::Tagged(_, _) => "tag"@,
    }
}

/// Inserts an entry into a sorted entry sequence: keeps ascending key
/// order, and an existing entry with the same key is replaced (last wins).
pub open spec fn obj_insert(
    entries: Seq<(Seq<char>, NodeV)>,
    key: Seq<char>,
    value: NodeV,
) -> Seq<(Seq<char>, NodeV)>
    decreases entries.len(),
{
    if entries.len() == 0 {
        seq![(key, value)]
    } else if str_lt(key, entries[0].0) {
        seq![(key, value)] + entries
    } else if key == entries[0].0 {
        seq![(key, value)] + entries.drop_first()
    } else {
        seq![entries[0]] + obj_insert(entries.drop_first(), key, value)
    }
}

/// The canonicalization of a raw value: the node it denotes, or the first
/// error met in document order.
pub open spec fn canon_spec(r: RawV) -> Result<NodeV, CanonErr>
    decreases r,
{
    match r {
        RawV::Null => Ok(NodeV::Null),
        RawV::Bool(b) => Ok(NodeV::Bool(b)),
        RawV::Num { bits, text } => if finite_bits(bits) {
            Ok(NodeV::Num { bits, text })
        } else {
            Err(CanonErr::NotFinite(text))
        },
        RawV::Str(s) => Ok(NodeV::Str(s)),
        RawV::Arr(items) => {
            proof {
                assert(decreases_to!(r => r->Arr_0));
            }
            match canon_list(items) {
                Ok(vs) => Ok(NodeV::Arr(vs)),
                Err(e) => Err(e),
            }
        },
        RawV::Mapping(pairs) => {
            proof {
                assert(decreases_to!(r => r->Mapping_0));
            }
            match canon_map(pairs) {
                Ok(entries) => Ok(NodeV::Obj(entries)),
                Err(e) => Err(e),
            }
        },
        RawV::Tagged(tag, _) => Err(CanonErr::Tag(tag)),
    }
}

/// Canonicalizes a sequence of raw values, stopping at the first error.
pub open spec fn canon_list(items: Seq<RawV>) -> Result<Seq<NodeV>, CanonErr>
    decreases items,
{
    if items.len() == 0 {
        Ok(Seq::empty())
    } else {
        proof {
            broadcast use vstd::seq::axiom_seq_subrange_decreases;

            assert(decreases_to!(items => items.subrange(0, items.len() - 1)));
        }
        match canon_list(items.subrange(0, items.len() - 1)) {
            Ok(front) => match canon_spec(items.last()) {
                Ok(v) => Ok(front.push(v)),
                Err(e) => Err(e),
            },
            Err(e) => Err(e),
        }
    }
}

/// Canonicalizes mapping pairs in order: every key must be a string, and
/// entries are inserted sorted, last key winning.
pub open spec fn canon_map(pairs: Seq<(RawV, RawV)>) -> Result<Seq<(Seq<char>, NodeV)>, CanonErr>
    decreases pairs,
{
    if pairs.len() == 0 {
        Ok(Seq::empty())
    } else {
        proof {
            broadcast use vstd::seq::axiom_seq_subrange_decreases;

            assert(decreases_to!(pairs => pairs.subrange(0, pairs.len() - 1)));
            assert(decreases_to!(pairs => pairs.last()));
            assert(decreases_to!(pairs.last() => pairs.last().0));
            assert(decreases_to!(pairs.last() => pairs.last().1));
        }
        match canon_map(pairs.subrange(0, pairs.len() - 1)) {
            Ok(front) => match pairs.last().0 {
                RawV::Str(key) => match canon_spec(pairs.last().1) {
                    Ok(v) => Ok(obj_insert(front, key, v)),
                    Err(e) => Err(e),
                },
                other => Err(CanonErr::NonStringKey(raw_kind_name(other))),
            },
            Err(e) => Err(e),
        }
    }
}

/// The executable error matches the abstract one.
pub open spec fn canon_err_matches(e: &CanonicalizeError, s: CanonErr) -> bool {
    match s {
        CanonErr::NotFinite(t) => e matches CanonicalizeError::NotFinite { value } && value@ == t,
        CanonErr::NonStringKey(t) => e matches CanonicalizeError::NonStringYamlKey { found }
            && found@ == t,
        CanonErr::Tag(t) => e matches CanonicalizeError::UnsupportedYamlTag { tag } && tag@ == t,
    }
}

/// Inserting into a sorted entry sequence keeps it sorted, and the keys are
/// the old keys plus the new one.
proof fn lemma_obj_insert_sorted(entries: Seq<(Seq<char>, NodeV)>, key: Seq<char>, value: NodeV)
    requires
        crate::node::obj_keys_sorted(entries),
        forall|i: int| 0 <= i < entries.len() ==> node_wf(#[trigger] entries[i].1),
        node_wf(value),
    ensures
        crate::node::obj_keys_sorted(obj_insert(entries, key, value)),
        forall|i: int|
            0 <= i < obj_insert(entries, key, value).len() ==> node_wf(
                #[trigger] obj_insert(entries, key, value)[i].1,
            ),
    decreases entries.len(),
{
    let out = obj_insert(entries, key, value);
    if entries.len() == 0 {
    } else if str_lt(key, entries[0].0) {
        assert forall|i: int, j: int| 0 <= i < j < out.len() implies str_lt(
            (#[trigger] out[i]).0,
            (#[trigger] out[j]).0,
        ) by {
            if i == 0 {
                if j == 1 {
                } else {
                    assert(str_lt(entries[0].0, entries[j - 1].0));
                    crate::strutil::lemma_str_le_trans(key, entries[0].0, entries[j - 1].0);
                    assert(key != entries[j - 1].0) by {
                        if key == entries[j - 1].0 {
                            crate::strutil::lemma_str_le_antisym(key, entries[0].0);
                        }
                    }
                }
            } else {
                assert(str_lt(entries[i - 1].0, entries[j - 1].0));
            }
        }
    } else if key == entries[0].0 {
        assert forall|i: int, j: int| 0 <= i < j < out.len() implies str_lt(
            (#[trigger] out[i]).0,
            (#[trigger] out[j]).0,
        ) by {
            if i == 0 {
                assert(str_lt(entries[0].0, entries[j].0));
            } else {
                assert(str_lt(entries[i].0, entries[j].0));
            }
        }
    } else {
        let rest = entries.drop_first();
        assert(crate::node::obj_keys_sorted(rest)) by {
            assert forall|i: int, j: int| 0 <= i < j < rest.len() implies str_lt(
                (#[trigger] rest[i]).0,
                (#[trigger] rest[j]).0,
            ) by {
                assert(str_lt(entries[i + 1].0, entries[j + 1].0));
            }
        }
        assert(forall|i: int| 0 <= i < rest.len() ==> node_wf(#[trigger] rest[i].1)) by {
            assert(forall|i: int|
                0 <= i < rest.len() ==> rest[i] == entries[i + 1] && node_wf(
                    #[trigger] entries[i + 1].1,
                ));
        }
        lemma_obj_insert_sorted(rest, key, value);
        let sub = obj_insert(rest, key, value);
        crate::strutil::lemma_str_le_total(key, entries[0].0);
        assert(str_le(entries[0].0, key));
        assert forall|i: int, j: int| 0 <= i < j < out.len() implies str_lt(
            (#[trigger] out[i]).0,
            (#[trigger] out[j]).0,
        ) by {
            if i == 0 {
                assert(out[j] == sub[j - 1]);
                lemma_obj_insert_keys(rest, key, value, j - 1);
                let kj = sub[j - 1].0;
                if kj == key {
                    assert(str_le(entries[0].0, key) && entries[0].0 != key);
                } else {
                    let w = choose|w: int| 0 <= w < rest.len() && (#[trigger] rest[w]).0 == kj;
                    assert(str_lt(entries[0].0, entries[w + 1].0));
                }
            } else {
                assert(out[i] == sub[i - 1] && out[j] == sub[j - 1]);
                assert(str_lt(sub[i - 1].0, sub[j - 1].0));
            }
        }
    }
}

/// Every key in an inserted sequence is the new key or one of the old.
proof fn lemma_obj_insert_keys(
    entries: Seq<(Seq<char>, NodeV)>,
    key: Seq<char>,
    value: NodeV,
    i: int,
)
    requires
        0 <= i < obj_insert(entries, key, value).len(),
    ensures
        obj_insert(entries, key, value)[i].0 == key || exists|w: int|
            0 <= w < entries.len() && (#[trigger] entries[w]).0 == obj_insert(
                entries,
                key,
                value,
            )[i].0,
    decreases entries.len(),
{
    let out = obj_insert(entries, key, value);
    if entries.len() == 0 {
    } else if str_lt(key, entries[0].0) {
        if i > 0 {
            assert(entries[i - 1].0 == out[i].0);
        }
    } else if key == entries[0].0 {
        if i > 0 {
            assert(entries[i].0 == out[i].0);
        }
    } else {
        if i == 0 {
            assert(entries[0].0 == out[0].0);
        } else {
            lemma_obj_insert_keys(entries.drop_first(), key, value, i - 1);
            let sub = obj_insert(entries.drop_first(), key, value);
            assert(out[i] == sub[i - 1]);
            if sub[i - 1].0 != key {
                let w = choose|w: int|
                    0 <= w < entries.drop_first().len() && (#[trigger] entries.drop_first()[w]).0
                        == sub[i - 1].0;
                assert(entries[w + 1].0 == sub[i - 1].0);
            }
        }
    }
}

/// The string ordering helper used by the sorted lemmas.
use crate::strutil::str_le;

impl Node {
    /// Canonicalizes a generic parsed value tree into a node. Mapping keys
    /// must be strings, tagged values are rejected, numbers must be finite;
    /// object keys deduplicate last-wins and come out sorted ascending.
    pub fn from_raw(raw: RawValue) -> (r: Result<Node, CanonicalizeError>)
        ensures
            match r {
                Ok(n) => canon_spec(raw@) == Ok::<NodeV, CanonErr>(n@) && node_wf(n@),
                Err(e) => {
                    &&& canon_spec(raw@) is Err
                    &&& canon_err_matches(&e, canon_spec(raw@)->Err_0)
                },
            },
    {
        canonicalize(raw)
    }
}

/// Canonicalizes a raw value, recursively.
#[verifier::loop_isolation(false)]
fn canonicalize(raw: RawValue) -> (r: Result<Node, CanonicalizeError>)
    ensures
        match r {
            Ok(n) => canon_spec(raw@) == Ok::<NodeV, CanonErr>(n@) && node_wf(n@),
            Err(e) => {
                &&& canon_spec(raw@) is Err
                &&& canon_err_matches(&e, canon_spec(raw@)->Err_0)
            },
        },
    decreases raw,
{
    broadcast use
        lemma_view_raws,
        lemma_view_raw_pairs,
        crate::node::lemma_view_nodes,
        crate::node::lemma_view_entries;

    match raw {
        RawValue::Null => Ok(Node::Null),
        RawValue::Bool(b) => Ok(Node::Bool(b)),
        RawValue::Number { bits, text } => {
            match Number::new(bits, text) {
                Ok(n) => Ok(Node::Number(n)),
                Err(e) => Err(e),
            }
        },
        RawValue::String(s) => Ok(Node::String(s)),
        RawValue::Array(items) => {
            let ghost rv = view_raws(items@);
            let ghost whole = RawV::Arr(rv);
            let mut out: Vec<Node> = Vec::new();
            let mut i: usize = 0;
            let len = items.len();
            let mut rest = items;
            proof {
                assert(canon_list(rv.subrange(0, 0)) == Ok::<Seq<NodeV>, CanonErr>(Seq::empty()));
                assert(crate::node::view_nodes(out@) =~= Seq::<NodeV>::empty());
            }
            while i < len
                invariant
                    i <= len,
                    len == rv.len(),
                    rest@ =~= items@.skip(i as int),
                    out@.len() == i,
                    canon_list(rv.subrange(0, i as int)) == Ok::<Seq<NodeV>, CanonErr>(
                        crate::node::view_nodes(out@),
                    ),
                    forall|j: int| 0 <= j < i ==> node_wf(#[trigger] crate::node::view_nodes(out@)[j]),
                decreases len - i,
            {
                let item = rest.remove(0);
                proof {
                    assert(items@.skip(i as int).remove(0) =~= items@.skip(i + 1 as int));
                    assert(item == items@[i as int]);
                    assert(decreases_to!(raw => raw->Array_0));
                    assert(decreases_to!(raw->Array_0 => raw->Array_0@));
                    assert(decreases_to!(raw->Array_0@ => raw->Array_0@[i as int]));
                    assert(raw->Array_0@[i as int] == items@[i as int]);
                }
                match canonicalize(item) {
                    Ok(n) => {
                        let ghost out_pre = out@;
                        out.push(n);
                        proof {
                            assert(rv.subrange(0, i + 1 as int).drop_last() =~= rv.subrange(
                                0,
                                i as int,
                            ));
                            assert(rv.subrange(0, i + 1 as int).last() == rv[i as int]);
                            assert(rv[i as int] == view_raw(items@[i as int]));
                            assert(crate::node::view_nodes(out@) =~= crate::node::view_nodes(
                                out_pre,
                            ).push(n@));
                            assert(forall|j: int|
                                0 <= j < i + 1 ==> node_wf(
                                    #[trigger] crate::node::view_nodes(out@)[j],
                                ));
                        }
                    },
                    Err(e) => {
                        proof {
                            assert(rv.subrange(0, i + 1 as int).drop_last() =~= rv.subrange(
                                0,
                                i as int,
                            ));
                            assert(rv.subrange(0, i + 1 as int).last() == rv[i as int]);
                            lemma_canon_list_err(rv, i + 1 as int);
                        }
                        return Err(e);
                    },
                }
                i = i + 1;
            }
            proof {
                assert(rv.subrange(0, rv.len() as int) =~= rv);
                assert(raw@ == RawV::Arr(rv));
            }
            Ok(Node::Array(out))
        },
        RawValue::Object(pairs) => {
            let ghost rp = view_raw_pairs(pairs@);
            let mut out: Vec<(String, Node)> = Vec::new();
            let mut i: usize = 0;
            let len = pairs.len();
            let mut rest = pairs;
            proof {
                assert(canon_map(rp.subrange(0, 0)) == Ok::<Seq<(Seq<char>, NodeV)>, CanonErr>(
                    Seq::empty(),
                ));
                assert(crate::node::view_entries(out@) =~= Seq::<(Seq<char>, NodeV)>::empty());
            }
            while i < len
                invariant
                    i <= len,
                    len == rp.len(),
                    rest@ =~= pairs@.skip(i as int),
                    canon_map(rp.subrange(0, i as int)) == Ok::<Seq<(Seq<char>, NodeV)>, CanonErr>(
                        crate::node::view_entries(out@),
                    ),
                    crate::node::obj_keys_sorted(crate::node::view_entries(out@)),
                    forall|j: int|
                        0 <= j < out@.len() ==> node_wf(
                            #[trigger] crate::node::view_entries(out@)[j].1,
                        ),
                decreases len - i,
            {
                let pair = rest.remove(0);
                proof {
                    assert(pairs@.skip(i as int).remove(0) =~= pairs@.skip(i + 1 as int));
                    assert(pair == pairs@[i as int]);
                    assert(decreases_to!(raw => raw->Object_0));
                    assert(decreases_to!(raw->Object_0 => raw->Object_0@));
                    assert(decreases_to!(raw->Object_0@ => raw->Object_0@[i as int]));
                    assert(raw->Object_0@[i as int] == pairs@[i as int]);
                    assert(decreases_to!(pairs@[i as int] => pairs@[i as int].0));
                    assert(decreases_to!(pairs@[i as int] => pairs@[i as int].1));
                    assert(rp.subrange(0, i + 1 as int).drop_last() =~= rp.subrange(0, i as int));
                    assert(rp.subrange(0, i + 1 as int).last() == rp[i as int]);
                    assert(rp[i as int] == (view_raw(pairs@[i as int].0), view_raw(
                        pairs@[i as int].1,
                    )));
                }
                let (rk, rval) = pair;
                let key = match rk {
                    RawValue::String(s) => s,
                    other => {
                        let found = kind_name(&other);
                        proof {
                            lemma_canon_map_err(rp, i + 1 as int);
                        }
                        return Err(CanonicalizeError::NonStringYamlKey { found });
                    },
                };
                match canonicalize(rval) {
                    Ok(n) => {
                        let ghost front = crate::node::view_entries(out@);
                        proof {
                            assert(forall|j: int|
                                0 <= j < front.len() ==> node_wf(#[trigger] front[j].1));
                            lemma_obj_insert_sorted(front, key@, n@);
                            assert(rp[i as int].0 == RawV::Str(key@));
                        }
                        out = insert_entry(out, key, n);
                        proof {
                            assert(canon_map(rp.subrange(0, i + 1 as int))
                                == Ok::<Seq<(Seq<char>, NodeV)>, CanonErr>(obj_insert(
                                front,
                                key@,
                                n@,
                            )));
                        }
                    },
                    Err(e) => {
                        proof {
                            lemma_canon_map_err(rp, i + 1 as int);
                        }
                        return Err(e);
                    },
                }
                i = i + 1;
            }
            proof {
                assert(rp.subrange(0, rp.len() as int) =~= rp);
                assert(raw@ == RawV::Mapping(rp));
            }
            Ok(Node::Object(out))
        },
        RawValue::Tagged { tag, value: _ } => {
            Err(CanonicalizeError::UnsupportedYamlTag { tag })
        },
    }
}

/// If a prefix of the list fails, the whole list fails with the same error.
proof fn lemma_canon_list_err(items: Seq<RawV>, n: int)
    requires
        0 <= n <= items.len(),
        canon_list(items.subrange(0, n)) is Err,
    ensures
        canon_list(items) is Err,
        canon_list(items)->Err_0 == canon_list(items.subrange(0, n))->Err_0,
    decreases items.len() - n,
{
    if n == items.len() {
        assert(items.subrange(0, n) =~= items);
    } else {
        assert(items.subrange(0, n + 1).drop_last() =~= items.subrange(0, n));
        lemma_canon_list_err(items, n + 1);
    }
}

/// If a prefix of the mapping fails, the whole mapping fails the same way.
proof fn lemma_canon_map_err(pairs: Seq<(RawV, RawV)>, n: int)
    requires
        0 <= n <= pairs.len(),
        canon_map(pairs.subrange(0, n)) is Err,
    ensures
        canon_map(pairs) is Err,
        canon_map(pairs)->Err_0 == canon_map(pairs.subrange(0, n))->Err_0,
    decreases pairs.len() - n,
{
    if n == pairs.len() {
        assert(pairs.subrange(0, n) =~= pairs);
    } else {
        assert(pairs.subrange(0, n + 1).drop_last() =~= pairs.subrange(0, n));
        lemma_canon_map_err(pairs, n + 1);
    }
}

/// The executable kind name of a raw value.
fn kind_name(r: &RawValue) -> (s: String)
    ensures
        s@ == raw_kind_name(r@),
{
    match r {
        RawValue::Null => String::from_str("null"),
        RawValue::Bool(_) => String::from_str("bool"),
        RawValue::Number { .. } => String::from_str("number"),
        RawValue::String(_) => String::from_str("string"),
        RawValue::Array(_) => String::from_str("sequence"),
        RawValue::Object(_) => String::from_str("mapping"),
        RawValue::Tagged { .. } => String::from_str("tag"),
    }
}

/// Inserts an entry into an entry vector at its ordered position: on sorted
/// input the ascending key order is kept, and an existing entry with the
/// same key is replaced.
#[verifier::loop_isolation(false)]
pub(crate) fn insert_entry(entries: Vec<(String, Node)>, key: String, value: Node) -> (r: Vec<
    (String, Node),
>)
    ensures
        crate::node::view_entries(r@) == obj_insert(
            crate::node::view_entries(entries@),
            key@,
            value@,
        ),
{
    broadcast use crate::node::lemma_view_entries;

    let ghost vs = crate::node::view_entries(entries@);
    let mut pos: usize = 0;
    while pos < entries.len() && !str_le_exec(key.as_str(), entries[pos].0.as_str())
        invariant
            pos <= entries@.len(),
            forall|j: int| 0 <= j < pos ==> !str_le(key@, (#[trigger] vs[j]).0),
        decreases entries@.len() - pos,
    {
        proof {
            assert(vs[pos as int].0 == entries@[pos as int].0@);
        }
        pos = pos + 1;
    }
    proof {
        assert forall|j: int| 0 <= j < pos implies str_lt((#[trigger] vs[j]).0, key@) by {
            crate::strutil::lemma_str_le_total(key@, vs[j].0);
            assert(str_le(vs[j].0, key@));
            assert(vs[j].0 != key@) by {
                if vs[j].0 == key@ {
                    assert(str_le(key@, vs[j].0));
                }
            }
        }
    }
    let replace = if pos < entries.len() {
        str_le_exec(entries[pos].0.as_str(), key.as_str())
    } else {
        false
    };
    proof {
        if pos < entries@.len() {
            assert(vs[pos as int].0 == entries@[pos as int].0@);
            assert(str_le(key@, vs[pos as int].0));
            if replace {
                crate::strutil::lemma_str_le_antisym(vs[pos as int].0, key@);
                assert(vs[pos as int].0 == key@);
            } else {
                assert(key@ != vs[pos as int].0) by {
                    if key@ == vs[pos as int].0 {
                        assert(str_le(vs[pos as int].0, key@));
                    }
                }
                assert(!str_lt(vs[pos as int].0, key@)) by {
                    if str_lt(vs[pos as int].0, key@) {
                        crate::strutil::lemma_str_le_antisym(vs[pos as int].0, key@);
                    }
                }
            }
        }
    }
    let mut out: Vec<(String, Node)> = Vec::new();
    let mut i: usize = 0;
    while i < pos
        invariant
            pos <= entries@.len(),
            i <= pos,
            out@.len() == i,
            forall|j: int|
                0 <= j < i ==> (#[trigger] out@[j]).0@ == entries@[j].0@ && out@[j].1@
                    == entries@[j].1@,
        decreases pos - i,
    {
        let k = entries[i].0.clone_string();
        let v = crate::node::clone_node(&entries[i].1);
        out.push((k, v));
        i = i + 1;
    }
    out.push((key, value));
    let mut k2: usize = if replace {
        pos + 1
    } else {
        pos
    };
    let ghost start = k2;
    while k2 < entries.len()
        invariant
            pos <= entries@.len(),
            start == if replace {
                pos + 1int
            } else {
                pos as int
            },
            start <= k2 <= entries@.len(),
            out@.len() == pos + 1 + (k2 - start),
            forall|j: int|
                0 <= j < pos ==> (#[trigger] out@[j]).0@ == entries@[j].0@ && out@[j].1@
                    == entries@[j].1@,
            out@[pos as int].0@ == key@ && out@[pos as int].1@ == value@,
            forall|j: int|
                pos + 1 <= j < out@.len() ==> (#[trigger] out@[j]).0@ == entries@[j - pos - 1
                    + start].0@ && out@[j].1@ == entries@[j - pos - 1 + start].1@,
        decreases entries@.len() - k2,
    {
        let k = entries[k2].0.clone_string();
        let v = crate::node::clone_node(&entries[k2].1);
        out.push((k, v));
        k2 = k2 + 1;
    }
    proof {
        lemma_insert_entry_shape(vs, key@, value@, pos as int, replace);
        let target = obj_insert(vs, key@, value@);
        assert(crate::node::view_entries(out@) =~= target);
    }
    out
}

/// The shape of a sorted insert at the found position: the result is the
/// prefix, the new entry, then the suffix (skipping the replaced entry).
proof fn lemma_insert_entry_shape(
    vs: Seq<(Seq<char>, NodeV)>,
    key: Seq<char>,
    value: NodeV,
    pos: int,
    replace: bool,
)
    requires
        0 <= pos <= vs.len(),
        forall|j: int| 0 <= j < pos ==> str_lt((#[trigger] vs[j]).0, key),
        replace ==> pos < vs.len() && vs[pos].0 == key,
        !replace && pos < vs.len() ==> !str_lt(vs[pos].0, key) && key != vs[pos].0,
    ensures
        obj_insert(vs, key, value) == vs.take(pos).push((key, value)) + vs.skip(
            pos + if replace {
                1int
            } else {
                0int
            },
        ),
    decreases vs.len(),
{
    if vs.len() == 0 {
        assert(obj_insert(vs, key, value) =~= vs.take(0).push((key, value)) + vs.skip(0));
    } else if pos == 0 {
        if replace {
            assert(obj_insert(vs, key, value) == seq![(key, value)] + vs.drop_first());
            assert(seq![(key, value)] + vs.drop_first() =~= vs.take(0).push((key, value))
                + vs.skip(1));
        } else {
            assert(!str_lt(vs[0].0, key) && key != vs[0].0);
            assert(str_lt(key, vs[0].0)) by {
                crate::strutil::lemma_str_le_total(key, vs[0].0);
                if !str_le(key, vs[0].0) {
                    assert(str_le(vs[0].0, key));
                    assert(str_lt(vs[0].0, key));
                }
            }
            assert(obj_insert(vs, key, value) == seq![(key, value)] + vs);
            assert(seq![(key, value)] + vs =~= vs.take(0).push((key, value)) + vs.skip(0));
        }
    } else {
        assert(str_lt(vs[0].0, key));
        assert(!str_lt(key, vs[0].0)) by {
            if str_lt(key, vs[0].0) {
                crate::strutil::lemma_str_le_antisym(key, vs[0].0);
            }
        }
        assert(key != vs[0].0);
        let rest = vs.drop_first();
        assert(forall|j: int| 0 <= j < pos - 1 ==> (#[trigger] rest[j]).0 == vs[j + 1].0);
        lemma_insert_entry_shape(rest, key, value, pos - 1, replace);
        assert(obj_insert(vs, key, value) == seq![vs[0]] + obj_insert(rest, key, value));
        assert(seq![vs[0]] + (rest.take(pos - 1).push((key, value)) + rest.skip(
            pos - 1 + if replace {
                1int
            } else {
                0int
            },
        )) =~= vs.take(pos).push((key, value)) + vs.skip(
            pos + if replace {
                1int
            } else {
                0int
            },
        ));
    }
}

} // verus!
