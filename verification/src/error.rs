//! Fatal conditions of the routing pipeline.
//!
//! Every error is unrecoverable at the point of detection: a malformed
//! flag, an undecodable descriptor set, two packages resolving to one
//! module path, a generated module that matches no input, or a module
//! left without any destination.

use vstd::prelude::*;
use vstd::string::*;

verus! {

/// A fatal configuration or input error.
#[derive(Debug)]
pub enum RouterError {
    /// A `key=value` flag without any `=`; holds the flag text.
    MalformedFlag(String),
    /// The input bytes do not decode as a descriptor set.
    InvalidDescriptorSet,
    /// Two input files resolved to the same module path; holds that path.
    DuplicateModule(Vec<String>),
    /// A generated module matches no input file; holds its path.
    UnknownModule(Vec<String>),
    /// A module matched no route and no fallback destination is
    /// configured; holds its path.
    NoOutput(Vec<String>),
}

/// The segments of a module path joined with `::`.
pub open spec fn joined(parts: Seq<Seq<char>>) -> Seq<char>
    decreases parts.len(),
{
    if parts.len() == 0 {
        Seq::empty()
    } else if parts.len() == 1 {
        parts[0]
    } else {
        joined(parts.drop_last()) + "::"@ + parts.last()
    }
}

/// Joins module-path segments with `::`.
pub fn join_segments(parts: &Vec<String>) -> (r: String)
    ensures
        r@ == joined(parts.deep_view()),
{
    let ghost pv = parts.deep_view();
    let mut r = String::new();
    let mut i: usize = 0;
    while i < parts.len()
        invariant
            pv == parts.deep_view(),
            0 <= i <= parts.len(),
            r@ == joined(pv.take(i as int)),
        decreases parts.len() - i,
    {
        if i > 0 {
            r.append("::");
        }
        r.append(parts[i].as_str());
        proof {
            assert(pv.take(i as int + 1).drop_last() =~= pv.take(i as int));
            assert(pv.take(i as int + 1).last() == pv[i as int]);
            assert(r@ =~= joined(pv.take(i as int + 1)));
        }
        i = i + 1;
    }
    proof {
        assert(pv.take(parts.len() as int) =~= pv);
    }
    r
}

/// The message reported for an error.
pub open spec fn error_text(e: RouterError) -> Seq<char> {
    match e {
        RouterError::MalformedFlag(f) => "argument "@ + f@ + " is not in the form of a=b"@,
        RouterError::InvalidDescriptorSet => "failed to decode the descriptor set"@,
        RouterError::DuplicateModule(p) => "module duplicate: "@ + joined(p.deep_view()),
        RouterError::UnknownModule(p) => "no input file for module "@ + joined(p.deep_view()),
        RouterError::NoOutput(p) => "module "@ + joined(p.deep_view()) + " has no output"@,
    }
}

impl RouterError {
    /// The message reported for this error.
    pub fn describe(&self) -> (r: String)
        ensures
            r@ == error_text(*self),
    {
        match self {
            RouterError::MalformedFlag(f) => {
                let mut r = String::from_str("argument ");
                r.append(f.as_str());
                r.append(" is not in the form of a=b");
                proof {
                    assert(r@ =~= error_text(*self));
                }
                r
            },
            RouterError::InvalidDescriptorSet => {
                String::from_str("failed to decode the descriptor set")
            },
            RouterError::DuplicateModule(p) => {
                let mut r = String::from_str("module duplicate: ");
                let j = join_segments(p);
                r.append(j.as_str());
                proof {
                    assert(r@ =~= error_text(*self));
                }
                r
            },
            RouterError::UnknownModule(p) => {
                let mut r = String::from_str("no input file for module ");
                let j = join_segments(p);
                r.append(j.as_str());
                proof {
                    assert(r@ =~= error_text(*self));
                }
                r
            },
            RouterError::NoOutput(p) => {
                let mut r = String::from_str("module ");
                let j = join_segments(p);
                r.append(j.as_str());
                r.append(" has no output");
                proof {
                    assert(r@ =~= error_text(*self));
                }
                r
            },
        }
    }
}

} // verus!
