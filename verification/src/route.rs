//! The output router: decides, for every generated module, which file
//! receives its (possibly wrapped) text.
//!
//! Destinations are resolved through a fixed priority chain: an
//! explicit route keyed by the originating input file path wins, then
//! an explicit route keyed by the module path, then the single shared
//! fallback destination. A module with no matching route and no
//! configured fallback is a fatal error. Explicit routes each own their
//! file (truncated and written once); every fallback-routed module is
//! appended to the one fallback file in generator order. Within a route
//! table, a later entry for the same key overrides an earlier one.

use vstd::prelude::*;
use vstd::string::*;
use crate::error::RouterError;
use crate::flags::RouterConfig;
use crate::resolve::ResolvedFile;
use crate::resolve::clone_parts;
use crate::resolve::parts_eq;
use crate::wrap::wrapped;
use crate::wrap::write_with_module;

verus! {

/// One generated module: its module path and its generated source text.
pub struct GeneratedUnit {
    pub parts: Vec<String>,
    pub content: String,
}

impl DeepView for GeneratedUnit {
    type V = (Seq<Seq<char>>, Seq<char>);

    open spec fn deep_view(&self) -> (Seq<Seq<char>>, Seq<char>) {
        (self.parts.deep_view(), self.content@)
    }
}

/// One planned file write: the destination path and the full text.
pub struct PlannedWrite {
    pub path: String,
    pub text: String,
}

impl DeepView for PlannedWrite {
    type V = (Seq<char>, Seq<char>);

    open spec fn deep_view(&self) -> (Seq<char>, Seq<char>) {
        (self.path@, self.text@)
    }
}

/// The complete output plan of a run: each explicitly routed write (its
/// file truncated, written once, in generator order), and the fallback
/// file with every fallback-routed text concatenated, present exactly
/// when some module routed there.
pub struct Plan {
    pub create_directory: bool,
    pub explicit: Vec<PlannedWrite>,
    pub fallback: Option<PlannedWrite>,
}

/// The value that the last entry of an association list gives to `key`.
pub open spec fn lookup_last<K, V>(es: Seq<(K, V)>, key: K) -> Option<V>
    decreases es.len(),
{
    if es.len() == 0 {
        None
    } else if es.last().0 == key {
        Some(es.last().1)
    } else {
        lookup_last(es.drop_last(), key)
    }
}

fn lookup_route<'a>(entries: &'a Vec<(String, String)>, key: &String) -> (r: Option<&'a String>)
    ensures
        match r {
            Some(v) => lookup_last(entries.deep_view(), key@) == Some(v@),
            None => lookup_last(entries.deep_view(), key@) is None,
        },
{
    let ghost ev = entries.deep_view();
    let mut i: usize = entries.len();
    proof {
        assert(ev.take(entries.len() as int) =~= ev);
    }
    while i > 0
        invariant
            ev == entries.deep_view(),
            0 <= i <= entries.len(),
            lookup_last(ev, key@) == lookup_last(ev.take(i as int), key@),
        decreases i,
    {
        i = i - 1;
        proof {
            assert(ev[i as int] == entries@[i as int].deep_view());
            assert(ev.take(i as int + 1).drop_last() =~= ev.take(i as int));
            assert(ev.take(i as int + 1).last() == ev[i as int]);
        }
        if entries[i].0.eq(key) {
            return Some(&entries[i].1);
        }
    }
    proof {
        assert(ev.take(0) =~= Seq::<(Seq<char>, Seq<char>)>::empty());
    }
    None
}

fn lookup_module_route<'a>(entries: &'a Vec<(Vec<String>, String)>, key: &Vec<String>) -> (r:
    Option<&'a String>)
    ensures
        match r {
            Some(v) => lookup_last(entries.deep_view(), key.deep_view()) == Some(v@),
            None => lookup_last(entries.deep_view(), key.deep_view()) is None,
        },
{
    let ghost ev = entries.deep_view();
    let mut i: usize = entries.len();
    proof {
        assert(ev.take(entries.len() as int) =~= ev);
    }
    while i > 0
        invariant
            ev == entries.deep_view(),
            0 <= i <= entries.len(),
            lookup_last(ev, key.deep_view()) == lookup_last(ev.take(i as int), key.deep_view()),
        decreases i,
    {
        i = i - 1;
        proof {
            assert(ev[i as int] == entries@[i as int].deep_view());
            assert(ev.take(i as int + 1).drop_last() =~= ev.take(i as int));
            assert(ev.take(i as int + 1).last() == ev[i as int]);
        }
        if parts_eq(&entries[i].0, key) {
            return Some(&entries[i].1);
        }
    }
    proof {
        assert(ev.take(0) =~= Seq::<(Seq<Seq<char>>, Seq<char>)>::empty());
    }
    None
}

fn lookup_wrap<'a>(entries: &'a Vec<(String, Vec<String>)>, key: &String) -> (r: Option<
    &'a Vec<String>,
>)
    ensures
        match r {
            Some(w) => lookup_last(entries.deep_view(), key@) == Some(w.deep_view()),
            None => lookup_last(entries.deep_view(), key@) is None,
        },
{
    let ghost ev = entries.deep_view();
    let mut i: usize = entries.len();
    proof {
        assert(ev.take(entries.len() as int) =~= ev);
    }
    while i > 0
        invariant
            ev == entries.deep_view(),
            0 <= i <= entries.len(),
            lookup_last(ev, key@) == lookup_last(ev.take(i as int), key@),
        decreases i,
    {
        i = i - 1;
        proof {
            assert(ev[i as int] == entries@[i as int].deep_view());
            assert(ev.take(i as int + 1).drop_last() =~= ev.take(i as int));
            assert(ev.take(i as int + 1).last() == ev[i as int]);
        }
        if entries[i].0.eq(key) {
            return Some(&entries[i].1);
        }
    }
    proof {
        assert(ev.take(0) =~= Seq::<(Seq<char>, Seq<Seq<char>>)>::empty());
    }
    None
}

fn lookup_input<'a>(resolved: &'a Vec<ResolvedFile>, parts: &Vec<String>) -> (r: Option<
    &'a String,
>)
    ensures
        match r {
            Some(v) => lookup_last(resolved.deep_view(), parts.deep_view()) == Some(v@),
            None => lookup_last(resolved.deep_view(), parts.deep_view()) is None,
        },
{
    let ghost ev = resolved.deep_view();
    let mut i: usize = resolved.len();
    proof {
        assert(ev.take(resolved.len() as int) =~= ev);
    }
    while i > 0
        invariant
            ev == resolved.deep_view(),
            0 <= i <= resolved.len(),
            lookup_last(ev, parts.deep_view()) == lookup_last(
                ev.take(i as int),
                parts.deep_view(),
            ),
        decreases i,
    {
        i = i - 1;
        proof {
            assert(ev[i as int] == resolved@[i as int].deep_view());
            assert(ev.take(i as int + 1).drop_last() =~= ev.take(i as int));
            assert(ev.take(i as int + 1).last() == ev[i as int]);
        }
        if parts_eq(&resolved[i].parts, parts) {
            return Some(&resolved[i].input);
        }
    }
    proof {
        assert(ev.take(0) =~= Seq::<(Seq<Seq<char>>, Seq<char>)>::empty());
    }
    None
}

/// The destination that the priority chain picks for a module with
/// originating input `input` and module path `parts`: the input-keyed
/// route if any, else the module-keyed route if any, else `None`
/// (meaning the fallback file).
pub open spec fn dest_of(cfg: RouterConfig, input: Seq<char>, parts: Seq<Seq<char>>) -> Option<
    Seq<char>,
> {
    match lookup_last(cfg.output_map.deep_view(), input) {
        Some(d) => Some(d),
        None => lookup_last(cfg.module_output_map.deep_view(), parts),
    }
}

/// The wrap segments registered for the originating input, if any.
pub open spec fn wrap_of(cfg: RouterConfig, input: Seq<char>) -> Seq<Seq<char>> {
    match lookup_last(cfg.module_in_file.deep_view(), input) {
        Some(w) => w,
        None => Seq::empty(),
    }
}

/// The text actually written for a module: its generated content,
/// wrapped per the input's wrap specification.
pub open spec fn routed_text(cfg: RouterConfig, input: Seq<char>, content: Seq<char>) -> Seq<
    char,
> {
    wrapped(content, wrap_of(cfg, input))
}

/// The unit's module path matches an input and an explicit route.
pub open spec fn is_explicit_unit(
    cfg: RouterConfig,
    rs: Seq<(Seq<Seq<char>>, Seq<char>)>,
    u: (Seq<Seq<char>>, Seq<char>),
) -> bool {
    match lookup_last(rs, u.0) {
        Some(input) => dest_of(cfg, input, u.0) is Some,
        None => false,
    }
}

/// The unit's module path matches an input but no explicit route.
pub open spec fn is_fallback_unit(
    cfg: RouterConfig,
    rs: Seq<(Seq<Seq<char>>, Seq<char>)>,
    u: (Seq<Seq<char>>, Seq<char>),
) -> bool {
    match lookup_last(rs, u.0) {
        Some(input) => dest_of(cfg, input, u.0) is None,
        None => false,
    }
}

/// The unit can be routed: its module path matches an input, and an
/// explicit route or the configured fallback receives it.
pub open spec fn unit_ok(
    cfg: RouterConfig,
    rs: Seq<(Seq<Seq<char>>, Seq<char>)>,
    u: (Seq<Seq<char>>, Seq<char>),
) -> bool {
    match lookup_last(rs, u.0) {
        Some(input) => dest_of(cfg, input, u.0) is Some || cfg.output is Some,
        None => false,
    }
}

/// The explicitly routed writes of a run, in generator order: one
/// (destination, wrapped text) pair per unit with an explicit route.
pub open spec fn explicit_writes(
    cfg: RouterConfig,
    rs: Seq<(Seq<Seq<char>>, Seq<char>)>,
    us: Seq<(Seq<Seq<char>>, Seq<char>)>,
) -> Seq<(Seq<char>, Seq<char>)>
    decreases us.len(),
{
    if us.len() == 0 {
        Seq::empty()
    } else {
        let rest = explicit_writes(cfg, rs, us.drop_last());
        let u = us.last();
        match lookup_last(rs, u.0) {
            Some(input) => match dest_of(cfg, input, u.0) {
                Some(d) => rest.push((d, routed_text(cfg, input, u.1))),
                None => rest,
            },
            None => rest,
        }
    }
}

/// The fallback file's content: the wrapped texts of all units without
/// an explicit route, concatenated in generator order.
pub open spec fn fallback_text(
    cfg: RouterConfig,
    rs: Seq<(Seq<Seq<char>>, Seq<char>)>,
    us: Seq<(Seq<Seq<char>>, Seq<char>)>,
) -> Seq<char>
    decreases us.len(),
{
    if us.len() == 0 {
        Seq::empty()
    } else {
        let rest = fallback_text(cfg, rs, us.drop_last());
        let u = us.last();
        match lookup_last(rs, u.0) {
            Some(input) => if dest_of(cfg, input, u.0) is None {
                rest + routed_text(cfg, input, u.1)
            } else {
                rest
            },
            None => rest,
        }
    }
}

/// Some unit routes to the fallback file.
pub open spec fn has_fallback(
    cfg: RouterConfig,
    rs: Seq<(Seq<Seq<char>>, Seq<char>)>,
    us: Seq<(Seq<Seq<char>>, Seq<char>)>,
) -> bool {
    exists|i: int| 0 <= i < us.len() && #[trigger] is_fallback_unit(cfg, rs, us[i])
}

/// `i` is the first unit that cannot be routed.
pub open spec fn first_failing(
    cfg: RouterConfig,
    rs: Seq<(Seq<Seq<char>>, Seq<char>)>,
    us: Seq<(Seq<Seq<char>>, Seq<char>)>,
    i: int,
) -> bool {
    &&& 0 <= i < us.len()
    &&& !unit_ok(cfg, rs, us[i])
    &&& forall|j: int| 0 <= j < i ==> unit_ok(cfg, rs, #[trigger] us[j])
}

/// The error of a failed run names the first unroutable unit: its
/// module path, and whether no input matched it or no destination
/// received it.
pub open spec fn error_names_first_failure(
    cfg: RouterConfig,
    rs: Seq<(Seq<Seq<char>>, Seq<char>)>,
    us: Seq<(Seq<Seq<char>>, Seq<char>)>,
    e: RouterError,
) -> bool {
    exists|i: int|
        #[trigger] first_failing(cfg, rs, us, i) && match e {
            RouterError::UnknownModule(p) => lookup_last(rs, us[i].0) is None && p.deep_view()
                == us[i].0,
            RouterError::NoOutput(p) => lookup_last(rs, us[i].0) is Some && cfg.output is None
                && p.deep_view() == us[i].0,
            _ => false,
        }
}

proof fn lemma_plan_unfold(
    cfg: RouterConfig,
    rs: Seq<(Seq<Seq<char>>, Seq<char>)>,
    us: Seq<(Seq<Seq<char>>, Seq<char>)>,
    i: int,
)
    requires
        0 <= i < us.len(),
    ensures
        explicit_writes(cfg, rs, us.take(i + 1)) == (match lookup_last(rs, us[i].0) {
            Some(input) => match dest_of(cfg, input, us[i].0) {
                Some(d) => explicit_writes(cfg, rs, us.take(i)).push(
                    (d, routed_text(cfg, input, us[i].1)),
                ),
                None => explicit_writes(cfg, rs, us.take(i)),
            },
            None => explicit_writes(cfg, rs, us.take(i)),
        }),
        fallback_text(cfg, rs, us.take(i + 1)) == (match lookup_last(rs, us[i].0) {
            Some(input) => if dest_of(cfg, input, us[i].0) is None {
                fallback_text(cfg, rs, us.take(i)) + routed_text(cfg, input, us[i].1)
            } else {
                fallback_text(cfg, rs, us.take(i))
            },
            None => fallback_text(cfg, rs, us.take(i)),
        }),
        has_fallback(cfg, rs, us.take(i + 1)) == (has_fallback(cfg, rs, us.take(i))
            || is_fallback_unit(cfg, rs, us[i])),
{
    assert(us.take(i + 1).drop_last() =~= us.take(i));
    assert(us.take(i + 1).last() == us[i]);
    if has_fallback(cfg, rs, us.take(i)) {
        let j = choose|j: int|
            0 <= j < us.take(i).len() && #[trigger] is_fallback_unit(cfg, rs, us.take(i)[j]);
        assert(us.take(i + 1)[j] == us.take(i)[j]);
        assert(is_fallback_unit(cfg, rs, us.take(i + 1)[j]));
        assert(has_fallback(cfg, rs, us.take(i + 1)));
    }
    if is_fallback_unit(cfg, rs, us[i]) {
        assert(us.take(i + 1)[i] == us[i]);
        assert(is_fallback_unit(cfg, rs, us.take(i + 1)[i]));
        assert(has_fallback(cfg, rs, us.take(i + 1)));
    }
    if has_fallback(cfg, rs, us.take(i + 1)) {
        let j = choose|j: int|
            0 <= j < us.take(i + 1).len() && #[trigger] is_fallback_unit(
                cfg,
                rs,
                us.take(i + 1)[j],
            );
        if j < i {
            assert(us.take(i)[j] == us.take(i + 1)[j]);
            assert(is_fallback_unit(cfg, rs, us.take(i)[j]));
            assert(has_fallback(cfg, rs, us.take(i)));
        } else {
            assert(us.take(i + 1)[i] == us[i]);
        }
    }
}

/// Computes the complete output plan for the generated units, in
/// generator order. Fails exactly when some unit cannot be routed,
/// naming the first such unit's module path.
pub fn plan_outputs(
    cfg: &RouterConfig,
    resolved: &Vec<ResolvedFile>,
    units: &Vec<GeneratedUnit>,
) -> (r: Result<Plan, RouterError>)
    ensures
        r is Ok <==> (forall|i: int|
            0 <= i < units.deep_view().len() ==> unit_ok(
                *cfg,
                resolved.deep_view(),
                #[trigger] units.deep_view()[i],
            )),
        r matches Ok(p) ==> {
            &&& p.create_directory == cfg.create_directory
            &&& p.explicit.deep_view() == explicit_writes(
                *cfg,
                resolved.deep_view(),
                units.deep_view(),
            )
            &&& (p.fallback matches Some(w) ==> (cfg.output matches Some(o) && w.path@ == o@
                && w.text@ == fallback_text(*cfg, resolved.deep_view(), units.deep_view())))
            &&& (p.fallback is Some <==> has_fallback(
                *cfg,
                resolved.deep_view(),
                units.deep_view(),
            ))
        },
        r matches Err(e) ==> error_names_first_failure(
            *cfg,
            resolved.deep_view(),
            units.deep_view(),
            e,
        ),
{
    let ghost rsv = resolved.deep_view();
    let ghost uv = units.deep_view();
    let mut explicit: Vec<PlannedWrite> = Vec::new();
    let mut fb_text = String::new();
    let mut fb_path: Option<String> = None;
    let mut i: usize = 0;
    while i < units.len()
        invariant
            rsv == resolved.deep_view(),
            uv == units.deep_view(),
            0 <= i <= units.len(),
            explicit.deep_view() == explicit_writes(*cfg, rsv, uv.take(i as int)),
            fb_text@ == fallback_text(*cfg, rsv, uv.take(i as int)),
            fb_path is Some <==> has_fallback(*cfg, rsv, uv.take(i as int)),
            fb_path matches Some(pp) ==> (cfg.output matches Some(o) && pp@ == o@),
            forall|j: int| 0 <= j < i ==> unit_ok(*cfg, rsv, #[trigger] uv[j]),
        decreases units.len() - i,
    {
        let u = &units[i];
        proof {
            assert(uv[i as int] == units@[i as int].deep_view());
        }
        match lookup_input(resolved, &u.parts) {
            None => {
                let p = clone_parts(&u.parts);
                proof {
                    assert(!unit_ok(*cfg, rsv, uv[i as int]));
                    assert(first_failing(*cfg, rsv, uv, i as int));
                }
                return Err(RouterError::UnknownModule(p));
            },
            Some(input) => {
                let empty_mods: Vec<String> = Vec::new();
                let mods: &Vec<String> = match lookup_wrap(&cfg.module_in_file, input) {
                    Some(w) => w,
                    None => &empty_mods,
                };
                proof {
                    assert(mods.deep_view() == wrap_of(*cfg, input@));
                }
                let mut text = String::new();
                write_with_module(&mut text, u.content.as_str(), mods);
                let ghost tview = text@;
                proof {
                    assert(tview == routed_text(*cfg, input@, uv[i as int].1));
                }
                let route = match lookup_route(&cfg.output_map, input) {
                    Some(d) => Some(d),
                    None => lookup_module_route(&cfg.module_output_map, &u.parts),
                };
                proof {
                    match route {
                        Some(d) => assert(dest_of(*cfg, input@, uv[i as int].0) == Some(d@)),
                        None => assert(dest_of(*cfg, input@, uv[i as int].0) is None),
                    }
                }
                match route {
                    Some(d) => {
                        let ghost pre = explicit.deep_view();
                        let dpath = d.clone();
                        let ghost dview = dpath@;
                        explicit.push(PlannedWrite { path: dpath, text });
                        proof {
                            lemma_plan_unfold(*cfg, rsv, uv, i as int);
                            assert forall|k: int| 0 <= k < explicit@.len() implies
                                explicit.deep_view()[k] == explicit_writes(
                                *cfg,
                                rsv,
                                uv.take(i as int + 1),
                            )[k] by {
                                if k < pre.len() {
                                    assert(explicit.deep_view()[k] == pre[k]);
                                } else {
                                    assert(explicit@[k].path@ == dview);
                                    assert(explicit@[k].text@ == tview);
                                }
                            }
                            assert(explicit.deep_view() =~= explicit_writes(
                                *cfg,
                                rsv,
                                uv.take(i as int + 1),
                            ));
                        }
                    },
                    None => {
                        match &cfg.output {
                            None => {
                                let p = clone_parts(&u.parts);
                                proof {
                                    assert(!unit_ok(*cfg, rsv, uv[i as int]));
                                    assert(first_failing(*cfg, rsv, uv, i as int));
                                }
                                return Err(RouterError::NoOutput(p));
                            },
                            Some(o) => {
                                if fb_path.is_none() {
                                    fb_path = Some(o.clone());
                                }
                                fb_text.append(text.as_str());
                                proof {
                                    lemma_plan_unfold(*cfg, rsv, uv, i as int);
                                    assert(is_fallback_unit(*cfg, rsv, uv[i as int]));
                                    assert(fb_text@ == fallback_text(
                                        *cfg,
                                        rsv,
                                        uv.take(i as int + 1),
                                    ));
                                    assert(has_fallback(*cfg, rsv, uv.take(i as int + 1)));
                                }
                            },
                        }
                    },
                }
            },
        }
        i = i + 1;
    }
    proof {
        assert(uv.take(units.len() as int) =~= uv);
    }
    match fb_path {
        Some(pp) => Ok(
            Plan {
                create_directory: cfg.create_directory,
                explicit,
                fallback: Some(PlannedWrite { path: pp, text: fb_text }),
            },
        ),
        None => Ok(Plan { create_directory: cfg.create_directory, explicit, fallback: None }),
    }
}

} // verus!
