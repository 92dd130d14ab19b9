//! Nesting generated text inside synthetic module declarations.
//!
//! A wrap specification is an ordered list of module-name segments.
//! Wrapping opens one `pub mod` block per segment, in order, then emits
//! the text unchanged, then closes every block in reverse order. An
//! empty segment list is a pass-through (the text plus its terminating
//! newline).

use vstd::prelude::*;
use vstd::string::*;

verus! {

/// The text produced when `content` is nested inside one `pub mod`
/// declaration per segment of `mods`: open-brace lines in order, the
/// content line, then one closing-brace line per segment.
pub open spec fn wrapped(content: Seq<char>, mods: Seq<Seq<char>>) -> Seq<char>
    decreases mods.len(),
{
    if mods.len() == 0 {
        content + "\n"@
    } else {
        "pub mod "@ + mods[0] + " {\n"@ + wrapped(content, mods.skip(1)) + "}\n"@
    }
}

fn write_wrapped_from(out: &mut String, content: &str, mods: &Vec<String>, i: usize)
    requires
        i <= mods.len(),
    ensures
        final(out)@ == old(out)@ + wrapped(content@, mods.deep_view().skip(i as int)),
    decreases mods.len() - i,
{
    if i == mods.len() {
        out.append(content);
        out.append("\n");
        proof {
            assert(mods.deep_view().skip(i as int) =~= Seq::<Seq<char>>::empty());
            assert((*out)@ =~= old(out)@ + wrapped(content@, mods.deep_view().skip(i as int)));
        }
    } else {
        out.append("pub mod ");
        out.append(mods[i].as_str());
        out.append(" {\n");
        write_wrapped_from(out, content, mods, i + 1);
        out.append("}\n");
        proof {
            let ms = mods.deep_view().skip(i as int);
            assert(ms[0] == mods.deep_view()[i as int]);
            assert(ms.skip(1) =~= mods.deep_view().skip(i as int + 1));
            assert((*out)@ =~= old(out)@ + wrapped(content@, ms));
        }
    }
}

/// Appends `content`, wrapped per the segments of `modules`, to `out`:
/// one `pub mod <segment> {` line per segment, the content line, then
/// one `}` line per segment.
pub fn write_with_module(out: &mut String, content: &str, modules: &Vec<String>)
    ensures
        final(out)@ == old(out)@ + wrapped(content@, modules.deep_view()),
{
    write_wrapped_from(out, content, modules, 0);
    proof {
        assert(modules.deep_view().skip(0) =~= modules.deep_view());
    }
}

} // verus!
