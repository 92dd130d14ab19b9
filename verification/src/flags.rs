//! Parsing of repeated `key=value` configuration flags.
//!
//! Every flag category (extern paths, attribute tables, route tables,
//! wrap tables) uses the same literal shape: the flag text is split at
//! its first `=` into a key and a value; the value may itself contain
//! further `=` characters. A flag without any `=` is a fatal
//! configuration error.

use vstd::prelude::*;
use vstd::string::*;
use crate::error::RouterError;

verus! {

/// `i` is the position of the first `=` in `s`.
pub open spec fn is_first_eq(s: Seq<char>, i: int) -> bool {
    &&& 0 <= i < s.len()
    &&& s[i] == '='
    &&& forall|j: int| 0 <= j < i ==> s[j] != '='
}

/// `s` holds at least one `=`, i.e. it is a well-formed `key=value` flag.
pub open spec fn has_eq(s: Seq<char>) -> bool {
    exists|i: int| 0 <= i < s.len() && s[i] == '='
}

/// Position of the first `=` in `s` (meaningful only when `has_eq(s)`).
pub open spec fn eq_index(s: Seq<char>) -> int {
    choose|i: int| is_first_eq(s, i)
}

/// Key of a well-formed flag: the text before the first `=`.
pub open spec fn key_of(s: Seq<char>) -> Seq<char> {
    s.take(eq_index(s))
}

/// Value of a well-formed flag: the text after the first `=`.
pub open spec fn val_of(s: Seq<char>) -> Seq<char> {
    s.skip(eq_index(s) + 1)
}

pub proof fn lemma_first_eq_unique(s: Seq<char>, i: int, j: int)
    requires
        is_first_eq(s, i),
        is_first_eq(s, j),
    ensures
        i == j,
{
    if i < j {
        assert(s[i] == '=');
        assert(s[i] != '=');
    }
    if j < i {
        assert(s[j] == '=');
        assert(s[j] != '=');
    }
}

pub proof fn lemma_eq_index(s: Seq<char>, i: int)
    requires
        is_first_eq(s, i),
    ensures
        eq_index(s) == i,
        is_first_eq(s, eq_index(s)),
        has_eq(s),
{
    assert(exists|k: int| is_first_eq(s, k));
    lemma_first_eq_unique(s, i, eq_index(s));
}

/// Splits a flag of the form `key=value` at its first `=`.
/// Returns `None` exactly when the flag holds no `=`.
pub fn split_arg<'a>(s: &'a str) -> (r: Option<(&'a str, &'a str)>)
    ensures
        r is Some <==> has_eq(s@),
        r matches Some((k, v)) ==> {
            &&& is_first_eq(s@, k@.len() as int)
            &&& k@ == key_of(s@)
            &&& v@ == val_of(s@)
        },
{
    let n = s.unicode_len();
    let mut i: usize = 0;
    while i < n
        invariant
            n == s@.len(),
            0 <= i <= n,
            forall|j: int| 0 <= j < i ==> s@[j] != '=',
        decreases n - i,
    {
        if s.get_char(i) == '=' {
            let k = s.substring_char(0, i);
            let v = s.substring_char(i + 1, n);
            proof {
                assert(is_first_eq(s@, i as int));
                lemma_eq_index(s@, i as int);
                assert(k@ =~= s@.take(i as int));
                assert(v@ =~= s@.skip(i as int + 1));
                assert(k@.len() == i as int);
            }
            return Some((k, v));
        }
        i = i + 1;
    }
    None
}

/// The key/value pairs that a list of well-formed flags denotes,
/// in the order the flags were given.
pub open spec fn pairs_of(fl: Seq<Seq<char>>) -> Seq<(Seq<char>, Seq<char>)>
    decreases fl.len(),
{
    if fl.len() == 0 {
        Seq::empty()
    } else {
        pairs_of(fl.drop_last()).push((key_of(fl.last()), val_of(fl.last())))
    }
}

/// Every flag in the list holds an `=`.
pub open spec fn all_have_eq(fl: Seq<Seq<char>>) -> bool {
    forall|i: int| 0 <= i < fl.len() ==> has_eq(#[trigger] fl[i])
}

/// `i` is the position of the first malformed flag in the list.
pub open spec fn is_first_bad(fl: Seq<Seq<char>>, i: int) -> bool {
    &&& 0 <= i < fl.len()
    &&& !has_eq(fl[i])
    &&& forall|j: int| 0 <= j < i ==> has_eq(#[trigger] fl[j])
}

proof fn lemma_pairs_of_unfold(fl: Seq<Seq<char>>, i: int)
    requires
        0 <= i < fl.len(),
    ensures
        pairs_of(fl.take(i + 1)) == pairs_of(fl.take(i)).push(
            (key_of(fl[i]), val_of(fl[i])),
        ),
{
    assert(fl.take(i + 1).drop_last() =~= fl.take(i));
    assert(fl.take(i + 1).last() == fl[i]);
}

/// Splits each flag of a list at its first `=`, in order.
/// Fails exactly when some flag holds no `=`, returning the first such flag.
pub fn parse_pairs(fl: &Vec<String>) -> (r: Result<Vec<(String, String)>, String>)
    ensures
        r is Ok <==> all_have_eq(fl.deep_view()),
        r matches Ok(ps) ==> ps.deep_view() == pairs_of(fl.deep_view()),
        r matches Err(x) ==> exists|i: int|
            #[trigger] is_first_bad(fl.deep_view(), i) && x@ == fl.deep_view()[i],
{
    let ghost flv = fl.deep_view();
    let mut out: Vec<(String, String)> = Vec::new();
    let mut i: usize = 0;
    while i < fl.len()
        invariant
            flv == fl.deep_view(),
            0 <= i <= fl.len(),
            out.deep_view() == pairs_of(flv.take(i as int)),
            forall|j: int| 0 <= j < i ==> has_eq(#[trigger] flv[j]),
        decreases fl.len() - i,
    {
        match split_arg(fl[i].as_str()) {
            Some((k, v)) => {
                out.push((k.to_owned(), v.to_owned()));
                proof {
                    lemma_pairs_of_unfold(flv, i as int);
                    assert(out.deep_view() =~= pairs_of(flv.take(i as int + 1)));
                }
            },
            None => {
                let bad = fl[i].clone();
                proof {
                    assert(is_first_bad(flv, i as int));
                }
                return Err(bad);
            },
        }
        i = i + 1;
    }
    proof {
        assert(flv.take(fl.len() as int) =~= flv);
    }
    Ok(out)
}

/// The segments of a module path written with `.` or `::` separators:
/// splitting `a.b` or `a::b` yields `a` and `b`; text between two
/// consecutive separators (or before/after a leading/trailing one) is
/// an empty segment.
pub open spec fn split_path(s: Seq<char>) -> Seq<Seq<char>>
    decreases s.len(),
{
    if s.len() == 0 {
        seq![s]
    } else if s[0] == '.' {
        seq![Seq::<char>::empty()] + split_path(s.skip(1))
    } else if s.len() >= 2 && s[0] == ':' && s[1] == ':' {
        seq![Seq::<char>::empty()] + split_path(s.skip(2))
    } else {
        let rest = split_path(s.skip(1));
        seq![seq![s[0]] + rest[0]] + rest.skip(1)
    }
}

pub proof fn lemma_split_path_nonempty(s: Seq<char>)
    ensures
        split_path(s).len() >= 1,
    decreases s.len(),
{
    if s.len() == 0 {
    } else if s[0] == '.' {
    } else if s.len() >= 2 && s[0] == ':' && s[1] == ':' {
    } else {
        lemma_split_path_nonempty(s.skip(1));
    }
}

/// Splits a module path on `.` and `::` separators into its segments.
pub fn split_module_path(s: &str) -> (r: Vec<String>)
    ensures
        r.deep_view() == split_path(s@),
    decreases s@.len(),
{
    let n = s.unicode_len();
    if n == 0 {
        let mut v: Vec<String> = Vec::new();
        v.push(String::new());
        proof {
            assert(v@[0]@ =~= s@);
            assert(v.deep_view() =~= split_path(s@));
        }
        v
    } else {
        let c0 = s.get_char(0);
        if c0 == '.' {
            let sub = s.substring_char(1, n);
            proof {
                assert(sub@ =~= s@.skip(1));
            }
            let mut rest = split_module_path(sub);
            let ghost rp = split_path(s@.skip(1));
            let ghost before = rest@;
            let empty_seg = String::new();
            let ghost ge = empty_seg;
            rest.insert(0, empty_seg);
            proof {
                lemma_split_path_nonempty(s@.skip(1));
                before.insert_ensures(0, ge);
                assert forall|k: int| 0 <= k < rest@.len() implies rest.deep_view()[k]
                    == split_path(s@)[k] by {
                    if k == 0 {
                        assert(rest@[0]@ =~= Seq::<char>::empty());
                    } else {
                        assert(rest@[k] == before[k - 1]);
                        assert(before[k - 1]@ == rp[k - 1]);
                    }
                }
                assert(rest.deep_view() =~= split_path(s@));
            }
            rest
        } else if c0 == ':' && n >= 2 && s.get_char(1) == ':' {
            let sub = s.substring_char(2, n);
            proof {
                assert(sub@ =~= s@.skip(2));
            }
            let mut rest = split_module_path(sub);
            let ghost rp = split_path(s@.skip(2));
            let ghost before = rest@;
            let empty_seg = String::new();
            let ghost ge = empty_seg;
            rest.insert(0, empty_seg);
            proof {
                lemma_split_path_nonempty(s@.skip(2));
                before.insert_ensures(0, ge);
                assert forall|k: int| 0 <= k < rest@.len() implies rest.deep_view()[k]
                    == split_path(s@)[k] by {
                    if k == 0 {
                        assert(rest@[0]@ =~= Seq::<char>::empty());
                    } else {
                        assert(rest@[k] == before[k - 1]);
                        assert(before[k - 1]@ == rp[k - 1]);
                    }
                }
                assert(rest.deep_view() =~= split_path(s@));
            }
            rest
        } else {
            let sub = s.substring_char(1, n);
            proof {
                assert(sub@ =~= s@.skip(1));
            }
            let mut rest = split_module_path(sub);
            let ghost rp = split_path(s@.skip(1));
            proof {
                lemma_split_path_nonempty(s@.skip(1));
            }
            let ghost orig = rest@;
            let first = rest.remove(0);
            let ghost mid = rest@;
            let head = s.substring_char(0, 1);
            let mut nf = String::from_str(head);
            nf.append(first.as_str());
            rest.insert(0, nf);
            proof {
                orig.remove_ensures(0);
                mid.insert_ensures(0, nf);
                assert(head@ =~= seq![s@[0]]);
                assert(first == orig[0]);
                assert(first@ == rp[0]);
                assert(nf@ == seq![s@[0]] + rp[0]);
                assert forall|k: int| 0 <= k < rest@.len() implies rest.deep_view()[k]
                    == split_path(s@)[k] by {
                    if k == 0 {
                        assert(rest@[0] == nf);
                        assert(split_path(s@)[0] == seq![s@[0]] + rp[0]);
                    } else {
                        assert(rest@[k] == mid[k - 1]);
                        assert(mid[k - 1] == orig[k]);
                        assert(orig[k]@ == rp[k]);
                        assert(split_path(s@)[k] == rp.skip(1)[k - 1]);
                        assert(rp.skip(1)[k - 1] == rp[k]);
                    }
                }
                assert(rest.deep_view() =~= split_path(s@));
            }
            rest
        }
    }
}

/// Attribute and redirection tables handed to the code generator:
/// each entry pairs a fully qualified entity path with the text to
/// attach to it.
pub struct GenConfig {
    pub extern_paths: Vec<(String, String)>,
    pub field_attributes: Vec<(String, String)>,
    pub type_attributes: Vec<(String, String)>,
    pub message_attributes: Vec<(String, String)>,
    pub enum_attributes: Vec<(String, String)>,
    pub client_attributes: Vec<(String, String)>,
    pub server_attributes: Vec<(String, String)>,
}

/// Routing rules for generated modules: explicit routes keyed by input
/// file path, routes keyed by module path, wrap specifications keyed by
/// input file path, the optional shared fallback destination, and
/// whether missing parent directories are created.
pub struct RouterConfig {
    pub output: Option<String>,
    pub output_map: Vec<(String, String)>,
    pub module_output_map: Vec<(Vec<String>, String)>,
    pub module_in_file: Vec<(String, Vec<String>)>,
    pub create_directory: bool,
}

/// The seven generator flag tables, in processing order.
pub open spec fn gen_tables(
    e: Seq<Seq<char>>,
    f: Seq<Seq<char>>,
    t: Seq<Seq<char>>,
    m: Seq<Seq<char>>,
    en: Seq<Seq<char>>,
    c: Seq<Seq<char>>,
    s: Seq<Seq<char>>,
) -> Seq<Seq<Seq<char>>> {
    seq![e, f, t, m, en, c, s]
}

/// The three router flag tables, in processing order.
pub open spec fn router_tables(
    om: Seq<Seq<char>>,
    mm: Seq<Seq<char>>,
    wm: Seq<Seq<char>>,
) -> Seq<Seq<Seq<char>>> {
    seq![om, mm, wm]
}

/// Every flag of every table holds an `=`.
pub open spec fn tables_ok(ts: Seq<Seq<Seq<char>>>) -> bool {
    forall|t: int| 0 <= t < ts.len() ==> all_have_eq(#[trigger] ts[t])
}

/// Flag `i` of table `t` is the first malformed flag, taking the
/// tables in order.
pub open spec fn is_first_bad_flag(ts: Seq<Seq<Seq<char>>>, t: int, i: int) -> bool {
    &&& 0 <= t < ts.len()
    &&& is_first_bad(ts[t], i)
    &&& forall|u: int| 0 <= u < t ==> all_have_eq(#[trigger] ts[u])
}

/// Module routes denoted by parsed `module-path=destination` pairs.
pub open spec fn module_route_pairs(ps: Seq<(Seq<char>, Seq<char>)>) -> Seq<
    (Seq<Seq<char>>, Seq<char>),
> {
    ps.map_values(|p: (Seq<char>, Seq<char>)| (split_path(p.0), p.1))
}

/// Wrap specifications denoted by parsed `input-path=module-path` pairs.
pub open spec fn wrap_pairs(ps: Seq<(Seq<char>, Seq<char>)>) -> Seq<(Seq<char>, Seq<Seq<char>>)> {
    ps.map_values(|p: (Seq<char>, Seq<char>)| (p.0, split_path(p.1)))
}

/// Builds the generator configuration from the seven repeated flag
/// lists, each split into `key=value` pairs. Fails exactly when some
/// flag holds no `=`, naming the first such flag (tables taken in the
/// order of the parameters).
pub fn build_gen_config(
    extern_path: &Vec<String>,
    field_attribute: &Vec<String>,
    type_attribute: &Vec<String>,
    message_attribute: &Vec<String>,
    enum_attribute: &Vec<String>,
    client_attribute: &Vec<String>,
    server_attribute: &Vec<String>,
) -> (r: Result<GenConfig, RouterError>)
    ensures
        r is Ok <==> tables_ok(
            gen_tables(
                extern_path.deep_view(),
                field_attribute.deep_view(),
                type_attribute.deep_view(),
                message_attribute.deep_view(),
                enum_attribute.deep_view(),
                client_attribute.deep_view(),
                server_attribute.deep_view(),
            ),
        ),
        r matches Ok(g) ==> {
            &&& g.extern_paths.deep_view() == pairs_of(extern_path.deep_view())
            &&& g.field_attributes.deep_view() == pairs_of(field_attribute.deep_view())
            &&& g.type_attributes.deep_view() == pairs_of(type_attribute.deep_view())
            &&& g.message_attributes.deep_view() == pairs_of(message_attribute.deep_view())
            &&& g.enum_attributes.deep_view() == pairs_of(enum_attribute.deep_view())
            &&& g.client_attributes.deep_view() == pairs_of(client_attribute.deep_view())
            &&& g.server_attributes.deep_view() == pairs_of(server_attribute.deep_view())
        },
        r matches Err(e) ==> (e matches RouterError::MalformedFlag(x) && exists|t: int, i: int|
            {
                &&& #[trigger] is_first_bad_flag(
                    gen_tables(extern_path.deep_view(), field_attribute.deep_view(), type_attribute.deep_view(), message_attribute.deep_view(), enum_attribute.deep_view(), client_attribute.deep_view(), server_attribute.deep_view()),
                    t,
                    i,
                )
                &&& x@ == gen_tables(extern_path.deep_view(), field_attribute.deep_view(), type_attribute.deep_view(), message_attribute.deep_view(), enum_attribute.deep_view(), client_attribute.deep_view(), server_attribute.deep_view())[t][i]
            }),
{
    let ghost ts = gen_tables(extern_path.deep_view(), field_attribute.deep_view(), type_attribute.deep_view(), message_attribute.deep_view(), enum_attribute.deep_view(), client_attribute.deep_view(), server_attribute.deep_view());
    let ep = match parse_pairs(extern_path) {
        Ok(v) => v,
        Err(x) => {
            proof {
                let i0 = choose|i: int|
                    is_first_bad(extern_path.deep_view(), i) && x@ == extern_path.deep_view()[i];
                assert(is_first_bad_flag(ts, 0, i0));
                assert(!all_have_eq(ts[0]));
            }
            return Err(RouterError::MalformedFlag(x));
        },
    };
    let fa = match parse_pairs(field_attribute) {
        Ok(v) => v,
        Err(x) => {
            proof {
                let i0 = choose|i: int|
                    is_first_bad(field_attribute.deep_view(), i) && x@
                        == field_attribute.deep_view()[i];
                assert(is_first_bad_flag(ts, 1, i0));
                assert(!all_have_eq(ts[1]));
            }
            return Err(RouterError::MalformedFlag(x));
        },
    };
    let ta = match parse_pairs(type_attribute) {
        Ok(v) => v,
        Err(x) => {
            proof {
                let i0 = choose|i: int|
                    is_first_bad(type_attribute.deep_view(), i) && x@
                        == type_attribute.deep_view()[i];
                assert(is_first_bad_flag(ts, 2, i0));
                assert(!all_have_eq(ts[2]));
            }
            return Err(RouterError::MalformedFlag(x));
        },
    };
    let ma = match parse_pairs(message_attribute) {
        Ok(v) => v,
        Err(x) => {
            proof {
                let i0 = choose|i: int|
                    is_first_bad(message_attribute.deep_view(), i) && x@
                        == message_attribute.deep_view()[i];
                assert(is_first_bad_flag(ts, 3, i0));
                assert(!all_have_eq(ts[3]));
            }
            return Err(RouterError::MalformedFlag(x));
        },
    };
    let ea = match parse_pairs(enum_attribute) {
        Ok(v) => v,
        Err(x) => {
            proof {
                let i0 = choose|i: int|
                    is_first_bad(enum_attribute.deep_view(), i) && x@
                        == enum_attribute.deep_view()[i];
                assert(is_first_bad_flag(ts, 4, i0));
                assert(!all_have_eq(ts[4]));
            }
            return Err(RouterError::MalformedFlag(x));
        },
    };
    let ca = match parse_pairs(client_attribute) {
        Ok(v) => v,
        Err(x) => {
            proof {
                let i0 = choose|i: int|
                    is_first_bad(client_attribute.deep_view(), i) && x@
                        == client_attribute.deep_view()[i];
                assert(is_first_bad_flag(ts, 5, i0));
                assert(!all_have_eq(ts[5]));
            }
            return Err(RouterError::MalformedFlag(x));
        },
    };
    let sa = match parse_pairs(server_attribute) {
        Ok(v) => v,
        Err(x) => {
            proof {
                let i0 = choose|i: int|
                    is_first_bad(server_attribute.deep_view(), i) && x@
                        == server_attribute.deep_view()[i];
                assert(is_first_bad_flag(ts, 6, i0));
                assert(!all_have_eq(ts[6]));
            }
            return Err(RouterError::MalformedFlag(x));
        },
    };
    Ok(
        GenConfig {
            extern_paths: ep,
            field_attributes: fa,
            type_attributes: ta,
            message_attributes: ma,
            enum_attributes: ea,
            client_attributes: ca,
            server_attributes: sa,
        },
    )
}

/// Builds the routing configuration: the fallback destination, the
/// explicit route tables (`input-path=file` and `module-path=file`),
/// the wrap table (`input-path=module-path`), and the directory-creation
/// switch. Fails exactly when some flag holds no `=`, naming the first
/// such flag (tables taken in the order of the parameters).
pub fn build_router_config(
    output: Option<String>,
    output_map: &Vec<String>,
    module_output_map: &Vec<String>,
    module_in_file: &Vec<String>,
    create_directory: bool,
) -> (r: Result<RouterConfig, RouterError>)
    ensures
        r is Ok <==> tables_ok(
            router_tables(output_map.deep_view(), module_output_map.deep_view(), module_in_file.deep_view()),
        ),
        r matches Ok(c) ==> {
            &&& c.output == output
            &&& c.create_directory == create_directory
            &&& c.output_map.deep_view() == pairs_of(output_map.deep_view())
            &&& c.module_output_map.deep_view() == module_route_pairs(
                pairs_of(module_output_map.deep_view()),
            )
            &&& c.module_in_file.deep_view() == wrap_pairs(pairs_of(module_in_file.deep_view()))
        },
        r matches Err(e) ==> (e matches RouterError::MalformedFlag(x) && exists|t: int, i: int|
            {
                &&& #[trigger] is_first_bad_flag(
                    router_tables(output_map.deep_view(), module_output_map.deep_view(), module_in_file.deep_view()),
                    t,
                    i,
                )
                &&& x@ == router_tables(output_map.deep_view(), module_output_map.deep_view(), module_in_file.deep_view())[t][i]
            }),
{
    let ghost ts = router_tables(output_map.deep_view(), module_output_map.deep_view(), module_in_file.deep_view());
    let om = match parse_pairs(output_map) {
        Ok(v) => v,
        Err(x) => {
            proof {
                let i0 = choose|i: int|
                    is_first_bad(output_map.deep_view(), i) && x@ == output_map.deep_view()[i];
                assert(is_first_bad_flag(ts, 0, i0));
                assert(!all_have_eq(ts[0]));
            }
            return Err(RouterError::MalformedFlag(x));
        },
    };
    let mm_pairs = match parse_pairs(module_output_map) {
        Ok(v) => v,
        Err(x) => {
            proof {
                let i0 = choose|i: int|
                    is_first_bad(module_output_map.deep_view(), i) && x@
                        == module_output_map.deep_view()[i];
                assert(is_first_bad_flag(ts, 1, i0));
                assert(!all_have_eq(ts[1]));
            }
            return Err(RouterError::MalformedFlag(x));
        },
    };
    let wm_pairs = match parse_pairs(module_in_file) {
        Ok(v) => v,
        Err(x) => {
            proof {
                let i0 = choose|i: int|
                    is_first_bad(module_in_file.deep_view(), i) && x@
                        == module_in_file.deep_view()[i];
                assert(is_first_bad_flag(ts, 2, i0));
                assert(!all_have_eq(ts[2]));
            }
            return Err(RouterError::MalformedFlag(x));
        },
    };
    let ghost mmv = mm_pairs.deep_view();
    let mut mm: Vec<(Vec<String>, String)> = Vec::new();
    let mut i: usize = 0;
    while i < mm_pairs.len()
        invariant
            mmv == mm_pairs.deep_view(),
            0 <= i <= mm_pairs.len(),
            mm@.len() == i,
            forall|k: int|
                0 <= k < i ==> (#[trigger] mm@[k]).0.deep_view() == split_path(mmv[k].0)
                    && mm@[k].1@ == mmv[k].1,
        decreases mm_pairs.len() - i,
    {
        let key_parts = split_module_path(mm_pairs[i].0.as_str());
        let dest = mm_pairs[i].1.clone();
        proof {
            assert(mmv[i as int] == mm_pairs@[i as int].deep_view());
        }
        mm.push((key_parts, dest));
        i = i + 1;
    }
    let ghost wmv = wm_pairs.deep_view();
    let mut wm: Vec<(String, Vec<String>)> = Vec::new();
    let mut k: usize = 0;
    while k < wm_pairs.len()
        invariant
            wmv == wm_pairs.deep_view(),
            0 <= k <= wm_pairs.len(),
            wm@.len() == k,
            forall|q: int|
                0 <= q < k ==> (#[trigger] wm@[q]).0@ == wmv[q].0 && wm@[q].1.deep_view()
                    == split_path(wmv[q].1),
        decreases wm_pairs.len() - k,
    {
        let key = wm_pairs[k].0.clone();
        let segs = split_module_path(wm_pairs[k].1.as_str());
        proof {
            assert(wmv[k as int] == wm_pairs@[k as int].deep_view());
        }
        wm.push((key, segs));
        k = k + 1;
    }
    proof {
        assert forall|q: int| 0 <= q < mmv.len() implies mm.deep_view()[q] == module_route_pairs(
            mmv,
        )[q] by {
            assert(mm@[q].0.deep_view() == split_path(mmv[q].0));
        }
        assert(mm.deep_view() =~= module_route_pairs(mmv));
        assert forall|q: int| 0 <= q < wmv.len() implies wm.deep_view()[q] == wrap_pairs(wmv)[q] by {
            assert(wm@[q].1.deep_view() == split_path(wmv[q].1));
        }
        assert(wm.deep_view() =~= wrap_pairs(wmv));
    }
    Ok(
        RouterConfig {
            output,
            output_map: om,
            module_output_map: mm,
            module_in_file: wm,
            create_directory,
        },
    )
}

} // verus!
