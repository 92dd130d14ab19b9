//! Decoding the descriptor set and resolving packages to module paths.
//!
//! Each input file carries a source path and a dotted package name. The
//! package is resolved to a hierarchical module path; two files must
//! never resolve to the same path, since generation and routing are
//! keyed by it.

use vstd::prelude::*;
use vstd::string::*;
use crate::error::RouterError;

verus! {

/// One input protocol-description unit: its source path and its dotted
/// package name, as decoded from the descriptor-set bytes.
pub struct FileEntry {
    pub name: String,
    pub package: String,
}

impl DeepView for FileEntry {
    type V = (Seq<char>, Seq<char>);

    open spec fn deep_view(&self) -> (Seq<char>, Seq<char>) {
        (self.name@, self.package@)
    }
}

/// An input file whose package has been resolved to its module path.
pub struct ResolvedFile {
    pub parts: Vec<String>,
    pub input: String,
}

impl DeepView for ResolvedFile {
    type V = (Seq<Seq<char>>, Seq<char>);

    open spec fn deep_view(&self) -> (Seq<Seq<char>>, Seq<char>) {
        (self.parts.deep_view(), self.input@)
    }
}

/// What decoding a descriptor set yields: `None` when the bytes are not
/// a valid encoding, else each file's (source path, package name), in
/// input order.
pub uninterp spec fn decoded_descriptors(bytes: Seq<u8>) -> Option<Seq<(Seq<char>, Seq<char>)>>;

/// The module path that a dotted package name resolves to.
pub uninterp spec fn module_parts_of(package: Seq<char>) -> Seq<Seq<char>>;

/// Relies on `prost::Message::decode` for `prost_types::FileDescriptorSet`:
/// decoding is a pure function of the input bytes, and each decoded
/// file's `name` and `package` fields are handed back as plain strings
/// (absent fields read as the empty string).
#[verifier::external_body]
fn decode_descriptor_set(bytes: &Vec<u8>) -> (r: Option<Vec<FileEntry>>)
    ensures
        match r {
            Some(v) => decoded_descriptors(bytes@) == Some(v.deep_view()),
            None => decoded_descriptors(bytes@) is None,
        },
{
    match <prost_types::FileDescriptorSet as prost::Message>::decode(bytes.as_slice()) {
        Ok(set) => Some(
            set.file
                .iter()
                .map(|d| FileEntry { name: d.name().to_owned(), package: d.package().to_owned() })
                .collect(),
        ),
        Err(_) => None,
    }
}

/// Relies on `prost_build::Module::from_protobuf_package_name`: the
/// module path computed for a package name depends on that name alone,
/// and the empty package yields the empty (root) module path; `parts`
/// hands the path's segments back.
#[verifier::external_body]
fn package_module_parts(package: &str) -> (r: Vec<String>)
    ensures
        r.deep_view() == module_parts_of(package@),
        package@.len() == 0 ==> r@.len() == 0,
{
    prost_build::Module::from_protobuf_package_name(package)
        .parts()
        .map(|p| p.to_owned())
        .collect()
}

/// Whether two module paths hold the same segments.
pub fn parts_eq(a: &Vec<String>, b: &Vec<String>) -> (r: bool)
    ensures
        r == (a.deep_view() == b.deep_view()),
{
    if a.len() != b.len() {
        proof {
            assert(a.deep_view().len() == a.len());
            assert(b.deep_view().len() == b.len());
        }
        return false;
    }
    let mut i: usize = 0;
    while i < a.len()
        invariant
            a.len() == b.len(),
            0 <= i <= a.len(),
            forall|j: int| 0 <= j < i ==> a.deep_view()[j] == b.deep_view()[j],
        decreases a.len() - i,
    {
        if !a[i].eq(&b[i]) {
            proof {
                assert(a.deep_view()[i as int] != b.deep_view()[i as int]);
            }
            return false;
        }
        i = i + 1;
    }
    proof {
        assert(a.deep_view() =~= b.deep_view());
    }
    true
}

/// Copies a module path.
pub fn clone_parts(v: &Vec<String>) -> (r: Vec<String>)
    ensures
        r.deep_view() == v.deep_view(),
{
    let mut r: Vec<String> = Vec::new();
    let mut i: usize = 0;
    while i < v.len()
        invariant
            0 <= i <= v.len(),
            r@.len() == i,
            forall|k: int| 0 <= k < i ==> r@[k] == v@[k],
        decreases v.len() - i,
    {
        r.push(v[i].clone());
        i = i + 1;
    }
    proof {
        assert forall|k: int| 0 <= k < v@.len() implies r.deep_view()[k] == v.deep_view()[k] by {
            assert(r@[k] == v@[k]);
        }
        assert(r.deep_view() =~= v.deep_view());
    }
    r
}

/// All entries resolve to pairwise distinct module paths.
pub open spec fn distinct_modules(es: Seq<(Seq<char>, Seq<char>)>) -> bool {
    forall|i: int, j: int|
        0 <= i < j < es.len() ==> module_parts_of(#[trigger] es[i].1) != module_parts_of(
            #[trigger] es[j].1,
        )
}

/// `j` is the first entry whose module path repeats an earlier one.
pub open spec fn is_first_dup(es: Seq<(Seq<char>, Seq<char>)>, j: int) -> bool {
    &&& 0 <= j < es.len()
    &&& exists|i: int|
        0 <= i < j && module_parts_of(#[trigger] es[i].1) == module_parts_of(es[j].1)
    &&& distinct_modules(es.take(j))
}

/// The module path and source path of every entry, in input order.
pub open spec fn resolved_of(es: Seq<(Seq<char>, Seq<char>)>) -> Seq<(Seq<Seq<char>>, Seq<char>)> {
    es.map_values(|e: (Seq<char>, Seq<char>)| (module_parts_of(e.1), e.0))
}

/// Resolves each entry's package to its module path, keeping the source
/// path beside it. Fails exactly when two entries resolve to the same
/// module path, naming the first repeated path.
pub fn resolve_modules(entries: &Vec<FileEntry>) -> (r: Result<Vec<ResolvedFile>, RouterError>)
    ensures
        r is Ok <==> distinct_modules(entries.deep_view()),
        r matches Ok(rs) ==> rs.deep_view() == resolved_of(entries.deep_view()),
        r matches Err(e) ==> exists|j: int|
            {
                &&& #[trigger] is_first_dup(entries.deep_view(), j)
                &&& e matches RouterError::DuplicateModule(p)
                &&& p.deep_view() == module_parts_of(entries.deep_view()[j].1)
            },
{
    let ghost ev = entries.deep_view();
    let mut out: Vec<ResolvedFile> = Vec::new();
    let mut j: usize = 0;
    while j < entries.len()
        invariant
            ev == entries.deep_view(),
            0 <= j <= entries.len(),
            out@.len() == j,
            forall|k: int|
                0 <= k < j ==> (#[trigger] out@[k]).parts.deep_view() == module_parts_of(ev[k].1)
                    && out@[k].input@ == ev[k].0,
            distinct_modules(ev.take(j as int)),
        decreases entries.len() - j,
    {
        let parts = package_module_parts(entries[j].package.as_str());
        proof {
            assert(ev[j as int] == entries@[j as int].deep_view());
        }
        let mut i: usize = 0;
        while i < j
            invariant
                ev == entries.deep_view(),
                0 <= i <= j < entries.len(),
                out@.len() == j,
                forall|k: int|
                    0 <= k < j ==> (#[trigger] out@[k]).parts.deep_view() == module_parts_of(
                        ev[k].1,
                    ) && out@[k].input@ == ev[k].0,
                distinct_modules(ev.take(j as int)),
                parts.deep_view() == module_parts_of(ev[j as int].1),
                forall|k: int|
                    0 <= k < i ==> module_parts_of(#[trigger] ev[k].1) != module_parts_of(
                        ev[j as int].1,
                    ),
            decreases j - i,
        {
            if parts_eq(&out[i].parts, &parts) {
                proof {
                    assert(module_parts_of(ev[i as int].1) == module_parts_of(ev[j as int].1));
                    assert(is_first_dup(ev, j as int));
                    assert(0 <= (i as int) && (i as int) < (j as int) && (j as int) < ev.len());
                    assert(!distinct_modules(ev));
                }
                return Err(RouterError::DuplicateModule(parts));
            }
            i = i + 1;
        }
        let input = entries[j].name.clone();
        out.push(ResolvedFile { parts, input });
        proof {
            assert(distinct_modules(ev.take(j as int + 1))) by {
                assert forall|a: int, b: int| 0 <= a < b < j as int + 1 implies module_parts_of(
                    #[trigger] ev.take(j as int + 1)[a].1,
                ) != module_parts_of(#[trigger] ev.take(j as int + 1)[b].1) by {
                    assert(ev.take(j as int + 1)[a] == ev[a]);
                    assert(ev.take(j as int + 1)[b] == ev[b]);
                    if b < j as int {
                        assert(ev.take(j as int)[a] == ev[a]);
                        assert(ev.take(j as int)[b] == ev[b]);
                        assert(module_parts_of(ev.take(j as int)[a].1) != module_parts_of(
                            ev.take(j as int)[b].1,
                        ));
                    }
                }
            }
        }
        j = j + 1;
    }
    proof {
        assert(ev.take(entries.len() as int) =~= ev);
        assert forall|k: int| 0 <= k < ev.len() implies out.deep_view()[k] == resolved_of(ev)[k] by {
            assert(out@[k].parts.deep_view() == module_parts_of(ev[k].1));
            assert(out@[k].input@ == ev[k].0);
        }
        assert(out.deep_view() =~= resolved_of(ev));
    }
    Ok(out)
}

/// Decodes descriptor-set bytes and resolves every file's package to
/// its module path, rejecting duplicate modules.
pub fn load_and_resolve(bytes: &Vec<u8>) -> (r: Result<
    (Vec<FileEntry>, Vec<ResolvedFile>),
    RouterError,
>)
    ensures
        r is Ok <==> (decoded_descriptors(bytes@) matches Some(es) && distinct_modules(es)),
        r matches Ok((fs, rs)) ==> decoded_descriptors(bytes@) == Some(fs.deep_view())
            && rs.deep_view() == resolved_of(fs.deep_view()),
        r matches Err(e) ==> match e {
            RouterError::InvalidDescriptorSet => decoded_descriptors(bytes@) is None,
            RouterError::DuplicateModule(p) => decoded_descriptors(bytes@) matches Some(es)
                && exists|j: int|
                #[trigger] is_first_dup(es, j) && p.deep_view() == module_parts_of(es[j].1),
            _ => false,
        },
{
    match decode_descriptor_set(bytes) {
        None => Err(RouterError::InvalidDescriptorSet),
        Some(fs) => {
            proof {
                assert(decoded_descriptors(bytes@) == Some(fs.deep_view()));
            }
            match resolve_modules(&fs) {
                Ok(rs) => Ok((fs, rs)),
                Err(e) => {
                    proof {
                        let es = fs.deep_view();
                        let j0 = choose|j: int|
                            {
                                &&& #[trigger] is_first_dup(es, j)
                                &&& e matches RouterError::DuplicateModule(p)
                                &&& p.deep_view() == module_parts_of(es[j].1)
                            };
                        assert(is_first_dup(es, j0));
                    }
                    Err(e)
                },
            }
        },
    }
}

} // verus!
