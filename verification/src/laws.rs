//! Laws of the output router, proved over the routing model.

use vstd::prelude::*;
use crate::flags::RouterConfig;
use crate::route::dest_of;
use crate::route::explicit_writes;
use crate::route::fallback_text;
use crate::route::is_explicit_unit;
use crate::route::is_fallback_unit;
use crate::route::lookup_last;
use crate::route::routed_text;
use crate::route::unit_ok;

verus! {

/// Number of units that an explicit route receives.
pub open spec fn count_explicit(
    cfg: RouterConfig,
    rs: Seq<(Seq<Seq<char>>, Seq<char>)>,
    us: Seq<(Seq<Seq<char>>, Seq<char>)>,
) -> int
    decreases us.len(),
{
    if us.len() == 0 {
        0
    } else {
        count_explicit(cfg, rs, us.drop_last()) + if is_explicit_unit(cfg, rs, us.last()) {
            1int
        } else {
            0int
        }
    }
}

/// Number of units that the fallback file receives.
pub open spec fn count_fallback(
    cfg: RouterConfig,
    rs: Seq<(Seq<Seq<char>>, Seq<char>)>,
    us: Seq<(Seq<Seq<char>>, Seq<char>)>,
) -> int
    decreases us.len(),
{
    if us.len() == 0 {
        0
    } else {
        count_fallback(cfg, rs, us.drop_last()) + if is_fallback_unit(cfg, rs, us.last()) {
            1int
        } else {
            0int
        }
    }
}

/// The routed (wrapped) text of a unit whose module path matches an
/// input; the empty text otherwise.
pub open spec fn text_of(
    cfg: RouterConfig,
    rs: Seq<(Seq<Seq<char>>, Seq<char>)>,
    u: (Seq<Seq<char>>, Seq<char>),
) -> Seq<char> {
    match lookup_last(rs, u.0) {
        Some(input) => routed_text(cfg, input, u.1),
        None => Seq::empty(),
    }
}

/// The explicit write of an explicitly routed unit: its destination and
/// its routed text.
pub open spec fn write_of(
    cfg: RouterConfig,
    rs: Seq<(Seq<Seq<char>>, Seq<char>)>,
    u: (Seq<Seq<char>>, Seq<char>),
) -> (Seq<char>, Seq<char>) {
    match lookup_last(rs, u.0) {
        Some(input) => match dest_of(cfg, input, u.0) {
            Some(d) => (d, routed_text(cfg, input, u.1)),
            None => (Seq::empty(), Seq::empty()),
        },
        None => (Seq::empty(), Seq::empty()),
    }
}

/// The routed texts of all units, concatenated in generator order.
pub open spec fn all_texts(
    cfg: RouterConfig,
    rs: Seq<(Seq<Seq<char>>, Seq<char>)>,
    us: Seq<(Seq<Seq<char>>, Seq<char>)>,
) -> Seq<char>
    decreases us.len(),
{
    if us.len() == 0 {
        Seq::empty()
    } else {
        all_texts(cfg, rs, us.drop_last()) + text_of(cfg, rs, us.last())
    }
}

/// Law: every routable unit is sent to exactly one destination. A unit
/// is explicit or fallback, never both; the explicit write list holds
/// one entry per explicitly routed unit; and the two kinds together
/// account for every unit.
pub proof fn lemma_each_unit_one_destination(
    cfg: RouterConfig,
    rs: Seq<(Seq<Seq<char>>, Seq<char>)>,
    us: Seq<(Seq<Seq<char>>, Seq<char>)>,
)
    requires
        forall|i: int| 0 <= i < us.len() ==> unit_ok(cfg, rs, #[trigger] us[i]),
    ensures
        count_explicit(cfg, rs, us) + count_fallback(cfg, rs, us) == us.len(),
        explicit_writes(cfg, rs, us).len() == count_explicit(cfg, rs, us),
        forall|i: int|
            0 <= i < us.len() ==> (is_explicit_unit(cfg, rs, #[trigger] us[i])
                <==> !is_fallback_unit(cfg, rs, us[i])),
    decreases us.len(),
{
    assert forall|i: int| 0 <= i < us.len() implies (is_explicit_unit(cfg, rs, #[trigger] us[i])
        <==> !is_fallback_unit(cfg, rs, us[i])) by {
        assert(unit_ok(cfg, rs, us[i]));
    }
    if us.len() > 0 {
        assert forall|i: int| 0 <= i < us.drop_last().len() implies unit_ok(
            cfg,
            rs,
            #[trigger] us.drop_last()[i],
        ) by {
            assert(us.drop_last()[i] == us[i]);
        }
        lemma_each_unit_one_destination(cfg, rs, us.drop_last());
        assert(unit_ok(cfg, rs, us[us.len() - 1]));
        assert(us.last() == us[us.len() - 1]);
    }
}

/// Law: explicit routes and the fallback file never share content.
/// Routing one more unit touches exactly one side of the plan: an
/// explicitly routed unit appends its write to the explicit list and
/// leaves the fallback text unchanged; a fallback-routed unit appends
/// its text to the fallback file and leaves the explicit list
/// unchanged.
pub proof fn lemma_routes_exclusive(
    cfg: RouterConfig,
    rs: Seq<(Seq<Seq<char>>, Seq<char>)>,
    us: Seq<(Seq<Seq<char>>, Seq<char>)>,
    u: (Seq<Seq<char>>, Seq<char>),
)
    ensures
        is_explicit_unit(cfg, rs, u) ==> explicit_writes(cfg, rs, us.push(u)) == explicit_writes(
            cfg,
            rs,
            us,
        ).push(write_of(cfg, rs, u)) && fallback_text(cfg, rs, us.push(u)) == fallback_text(
            cfg,
            rs,
            us,
        ),
        is_fallback_unit(cfg, rs, u) ==> explicit_writes(cfg, rs, us.push(u)) == explicit_writes(
            cfg,
            rs,
            us,
        ) && fallback_text(cfg, rs, us.push(u)) == fallback_text(cfg, rs, us) + text_of(
            cfg,
            rs,
            u,
        ),
{
    assert(us.push(u).drop_last() =~= us);
    assert(us.push(u).last() == u);
}

/// Law: with no explicit routes configured, nothing is written to an
/// explicit destination, and the fallback file holds the units' routed
/// texts concatenated in generator order.
pub proof fn lemma_fallback_concatenation(
    cfg: RouterConfig,
    rs: Seq<(Seq<Seq<char>>, Seq<char>)>,
    us: Seq<(Seq<Seq<char>>, Seq<char>)>,
)
    requires
        cfg.output_map.deep_view().len() == 0,
        cfg.module_output_map.deep_view().len() == 0,
    ensures
        explicit_writes(cfg, rs, us).len() == 0,
        fallback_text(cfg, rs, us) == all_texts(cfg, rs, us),
    decreases us.len(),
{
    if us.len() > 0 {
        lemma_fallback_concatenation(cfg, rs, us.drop_last());
    }
}

} // verus!
