//! Reflection decorations: when runtime introspection is requested,
//! every message type receives three attached attribute strings — a
//! reflection-capability derive, its fully qualified message name, and
//! a reference to the byte symbol holding the encoded descriptor pool.

use vstd::prelude::*;
use vstd::string::*;

verus! {

/// What listing the message types of a descriptor set yields: `None`
/// when the bytes are not a valid encoding, else every message's fully
/// qualified name, in pool order.
pub uninterp spec fn message_names_of(bytes: Seq<u8>) -> Option<Seq<Seq<char>>>;

/// Relies on `prost_reflect::DescriptorPool::decode` and
/// `DescriptorPool::all_messages`: the pool decoded from a descriptor
/// set, and so the list of its messages' fully qualified names, is a
/// function of the input bytes alone.
#[verifier::external_body]
fn decode_message_names(bytes: &Vec<u8>) -> (r: Option<Vec<String>>)
    ensures
        match r {
            Some(v) => message_names_of(bytes@) == Some(v.deep_view()),
            None => message_names_of(bytes@) is None,
        },
{
    match prost_reflect::DescriptorPool::decode(bytes.as_slice()) {
        Ok(pool) => Some(pool.all_messages().map(|m| m.full_name().to_owned()).collect()),
        Err(_) => None,
    }
}

/// The reflection-capability derive attached to every message.
pub open spec fn reflect_derive_attr() -> Seq<char> {
    "#[derive(::prost_reflect::ReflectMessage)]"@
}

/// The message-name marker attached to a message.
pub open spec fn reflect_name_attr(name: Seq<char>) -> Seq<char> {
    "#[prost_reflect(message_name = \""@ + name + "\")]"@
}

/// The descriptor-pool byte reference attached to every message.
pub open spec fn reflect_pool_attr(byte_ref: Seq<char>) -> Seq<char> {
    "#[prost_reflect(file_descriptor_set_bytes = \""@ + byte_ref + "\")]"@
}

/// The type-attribute pairs that reflection adds: for each message
/// name, in order, the derive, the name marker, and the pool reference.
pub open spec fn reflection_pairs(names: Seq<Seq<char>>, byte_ref: Seq<char>) -> Seq<
    (Seq<char>, Seq<char>),
>
    decreases names.len(),
{
    if names.len() == 0 {
        Seq::empty()
    } else {
        reflection_pairs(names.drop_last(), byte_ref) + seq![
            (names.last(), reflect_derive_attr()),
            (names.last(), reflect_name_attr(names.last())),
            (names.last(), reflect_pool_attr(byte_ref)),
        ]
    }
}

proof fn lemma_reflection_pairs_unfold(names: Seq<Seq<char>>, byte_ref: Seq<char>, i: int)
    requires
        0 <= i < names.len(),
    ensures
        reflection_pairs(names.take(i + 1), byte_ref) == reflection_pairs(
            names.take(i),
            byte_ref,
        ) + seq![
            (names[i], reflect_derive_attr()),
            (names[i], reflect_name_attr(names[i])),
            (names[i], reflect_pool_attr(byte_ref)),
        ],
{
    assert(names.take(i + 1).drop_last() =~= names.take(i));
    assert(names.take(i + 1).last() == names[i]);
}

/// Builds the three reflection attributes of one message name.
fn one_message_attrs(name: &String, byte_ref: &str) -> (r: (String, String))
    ensures
        r.0@ == reflect_name_attr(name@),
        r.1@ == reflect_pool_attr(byte_ref@),
{
    let mut n = String::from_str("#[prost_reflect(message_name = \"");
    n.append(name.as_str());
    n.append("\")]");
    let mut p = String::from_str("#[prost_reflect(file_descriptor_set_bytes = \"");
    p.append(byte_ref);
    p.append("\")]");
    proof {
        assert(n@ =~= reflect_name_attr(name@));
        assert(p@ =~= reflect_pool_attr(byte_ref@));
    }
    (n, p)
}

/// The type-attribute pairs that reflection adds for the given message
/// names and descriptor-pool byte reference, in order.
pub fn reflection_decorations(names: &Vec<String>, byte_ref: &str) -> (r: Vec<(String, String)>)
    ensures
        r.deep_view() == reflection_pairs(names.deep_view(), byte_ref@),
{
    let ghost nv = names.deep_view();
    let mut out: Vec<(String, String)> = Vec::new();
    let mut i: usize = 0;
    while i < names.len()
        invariant
            nv == names.deep_view(),
            0 <= i <= names.len(),
            out.deep_view() == reflection_pairs(nv.take(i as int), byte_ref@),
        decreases names.len() - i,
    {
        let name = &names[i];
        let derive_attr = String::from_str("#[derive(::prost_reflect::ReflectMessage)]");
        let (name_attr, pool_attr) = one_message_attrs(name, byte_ref);
        let ghost pre = out.deep_view();
        out.push((name.clone(), derive_attr));
        out.push((name.clone(), name_attr));
        out.push((name.clone(), pool_attr));
        proof {
            lemma_reflection_pairs_unfold(nv, byte_ref@, i as int);
            let target = reflection_pairs(nv.take(i as int + 1), byte_ref@);
            assert forall|k: int| 0 <= k < out.deep_view().len() implies out.deep_view()[k]
                == target[k] by {
                if k < pre.len() {
                    assert(out.deep_view()[k] == pre[k]);
                }
            }
            assert(out.deep_view() =~= target);
        }
        i = i + 1;
    }
    proof {
        assert(nv.take(names.len() as int) =~= nv);
    }
    out
}

/// Appends the reflection attributes of every message in the descriptor
/// set to a type-attribute table. Returns `None`, leaving the table
/// unchanged, exactly when the bytes do not decode.
pub fn add_reflection_decorations(
    table: &mut Vec<(String, String)>,
    bytes: &Vec<u8>,
    byte_ref: &str,
) -> (r: Option<()>)
    ensures
        match r {
            Some(_) => message_names_of(bytes@) matches Some(ns) && final(table).deep_view()
                == old(table).deep_view() + reflection_pairs(ns, byte_ref@),
            None => message_names_of(bytes@) is None && *final(table) == *old(table),
        },
{
    match decode_message_names(bytes) {
        None => None,
        Some(names) => {
            let ghost pre = table.deep_view();
            let more = reflection_decorations(&names, byte_ref);
            let ghost mv = more.deep_view();
            let mut k: usize = 0;
            while k < more.len()
                invariant
                    mv == more.deep_view(),
                    0 <= k <= more.len(),
                    table.deep_view() == pre + mv.take(k as int),
                decreases more.len() - k,
            {
                let ghost tpre = table.deep_view();
                let key = more[k].0.clone();
                let val = more[k].1.clone();
                table.push((key, val));
                proof {
                    assert(mv[k as int] == more@[k as int].deep_view());
                    let target = pre + mv.take(k as int + 1);
                    assert forall|q: int| 0 <= q < table.deep_view().len() implies
                        table.deep_view()[q] == target[q] by {
                        if q < tpre.len() {
                            assert(table.deep_view()[q] == tpre[q]);
                            if q < pre.len() {
                                assert(target[q] == pre[q]);
                                assert(tpre[q] == pre[q]);
                            } else {
                                assert(target[q] == mv.take(k as int + 1)[q - pre.len()]);
                                assert(mv.take(k as int + 1)[q - pre.len()] == mv[q - pre.len()]);
                                assert(tpre[q] == mv.take(k as int)[q - pre.len()]);
                            }
                        } else {
                            assert(table@[q].0@ == mv[k as int].0);
                            assert(table@[q].1@ == mv[k as int].1);
                            assert(target[q] == mv[k as int]);
                        }
                    }
                    assert(table.deep_view().len() == tpre.len() + 1);
                    assert(mv.take(k as int + 1).len() == k + 1);
                    assert(target.len() == pre.len() + k + 1);
                    assert(table.deep_view() =~= target);
                }
                k = k + 1;
            }
            proof {
                assert(mv.take(more.len() as int) =~= mv);
            }
            Some(())
        },
    }
}

} // verus!
