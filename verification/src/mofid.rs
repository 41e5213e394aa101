//! The framework-identifier string format: its parsed form, assembly
//! from fragments, and parsing back into fields.

use vstd::prelude::*;
use crate::text::{
    join_with_sep, str_eq, trim_spec, trim_str, split_on, split_ws, split_on_char, split_ws_str,
    has_prefix, starts_with_str, find_ch, find_char_from, join_from, lemma_split_on_len,
    lemma_find_ch_unique,
};

verus! {

/// The parsed fields of an identifier string.
#[derive(Debug)]
pub struct MofIdData {
    pub name: String,
    pub smiles: String,
    pub smiles_part: Vec<String>,
    pub topology: String,
    pub base_topology: String,
    pub extra_topology: Option<String>,
    pub catenation: Option<String>,
    pub commit_ref: Option<String>,
}

/// A generated identifier with its companion fields.
#[derive(Debug)]
pub struct MofIdResult {
    pub mofid: String,
    pub mofkey: String,
    pub smiles_nodes: Vec<String>,
    pub smiles_linkers: Vec<String>,
    pub smiles: String,
    pub topology: String,
    pub cat: Option<String>,
    pub cifname: String,
}

/// Why an identifier string was rejected.
#[derive(Debug, Clone, Copy, PartialEq, Eq, Structural)]
pub enum MofIdError {
    /// The part before the metadata is not exactly two
    /// whitespace-separated fields.
    InvalidFormat,
    /// The metadata does not carry the supported version tag.
    UnsupportedVersion,
}

/// The view of an optional borrowed string.
pub open spec fn opt_str_view(o: Option<&str>) -> Option<Seq<char>> {
    match o {
        Some(s) => Some(s@),
        None => None,
    }
}

/// The catenation field as written into an identifier.
pub open spec fn cat_code(cat: Option<Seq<char>>) -> Seq<char> {
    match cat {
        Some(c) => if c == "no_mof"@ {
            c
        } else {
            "cat"@ + c
        },
        None => "NA"@,
    }
}

/// The identifier string assembled from its parts: the fragments
/// joined with dots, the version tag, topology and catenation fields,
/// then the commit reference and the structure name; an identifier
/// with no fragments is marked with a leading `*` and `no_mof`.
pub open spec fn assembled_mofid(
    fragments: Seq<Seq<char>>,
    topology: Seq<char>,
    cat: Option<Seq<char>>,
    name: Seq<char>,
    commit: Seq<char>,
) -> Seq<char> {
    let base = join_with_sep(fragments, "."@) + " MOFid-v1."@ + topology + "."@ + cat_code(cat);
    let guarded = if base.len() > 0 && base[0] == ' ' {
        "*"@ + base + "no_mof"@
    } else {
        base
    };
    guarded + "."@ + commit + ";"@ + name
}

/// Builds the identifier string for a set of fragments.
pub fn assemble_mofid(
    fragments: &[String],
    topology: &str,
    cat: Option<&str>,
    name: &str,
    commit: &str,
) -> (r: String)
    ensures
        r@ == assembled_mofid(
            fragments.deep_view(),
            topology@,
            opt_str_view(cat),
            name@,
            commit@,
        ),
{
    let mut mofid = crate::text::join_strings(fragments, ".");
    mofid.append(" MOFid-v1.");
    mofid.append(topology);
    mofid.append(".");
    match cat {
        Some(c) => {
            if str_eq(c, "no_mof") {
                mofid.append(c);
            } else {
                mofid.append("cat");
                mofid.append(c);
            }
        },
        None => {
            mofid.append("NA");
        },
    }
    let ghost base = mofid@;
    proof {
        reveal_strlit(" MOFid-v1.");
        assert(base.len() > 0);
    }
    let c0 = mofid.as_str().get_char(0);
    let mut guarded: String;
    if c0 == ' ' {
        guarded = String::from_str("*");
        guarded.append(mofid.as_str());
        guarded.append("no_mof");
    } else {
        guarded = mofid;
    }
    guarded.append(".");
    guarded.append(commit);
    guarded.append(";");
    guarded.append(name);
    proof {
        assert(guarded@ =~= assembled_mofid(
            fragments.deep_view(),
            topology@,
            opt_str_view(cat),
            name@,
            commit@,
        ));
    }
    guarded
}

/// The view of an optional owned string.
pub open spec fn opt_string_view(o: Option<String>) -> Option<Seq<char>> {
    match o {
        Some(s) => Some(s@),
        None => None,
    }
}

/// The catenation field parsed out of the metadata parts: the last
/// part with a `cat` prefix, with the prefix removed.
pub open spec fn parsed_cat(meta: Seq<Seq<char>>) -> Option<Seq<char>>
    decreases meta.len(),
{
    if meta.len() == 0 {
        None
    } else if has_prefix(meta.last(), "cat"@) {
        Some(meta.last().subrange(3, meta.last().len() as int))
    } else {
        parsed_cat(meta.drop_last())
    }
}

/// The commit reference parsed out of the metadata parts: the last
/// part that is neither a version tag, nor a catenation field, nor
/// the topology itself.
pub open spec fn parsed_commit(meta: Seq<Seq<char>>, topo: Seq<char>) -> Option<Seq<char>>
    decreases meta.len(),
{
    if meta.len() == 0 {
        None
    } else if !has_prefix(meta.last(), "cat"@) && !has_prefix(meta.last(), "MOFid"@)
        && meta.last() != topo {
        Some(meta.last())
    } else {
        parsed_commit(meta.drop_last(), topo)
    }
}

/// The topology field of the metadata parts.
pub open spec fn parsed_topology(meta: Seq<Seq<char>>) -> Seq<char> {
    if meta.len() > 1 {
        meta[1]
    } else {
        "NA"@
    }
}

/// Every field of `d` equals what the identifier grammar assigns it
/// on input `input`.
pub open spec fn parse_fields_ok(input: Seq<char>, d: MofIdData) -> bool {
    let t = trim_spec(input);
    let parts = split_on(t, ';');
    let comps = split_ws(parts[0]);
    let meta = split_on(comps[1], '.');
    let topo = parsed_topology(meta);
    let topo_parts = split_on(topo, ',');
    &&& d.name@ == (if parts.len() > 1 {
        join_with_sep(parts.subrange(1, parts.len() as int), ";"@)
    } else {
        Seq::<char>::empty()
    })
    &&& d.smiles@ == comps[0]
    &&& d.smiles_part.deep_view() == split_on(comps[0], '.')
    &&& d.topology@ == topo
    &&& d.base_topology@ == topo_parts[0]
    &&& opt_string_view(d.extra_topology) == (if find_ch(topo, ',') < topo.len() {
        Some(join_with_sep(topo_parts.subrange(1, topo_parts.len() as int), ","@))
    } else {
        None::<Seq<char>>
    })
    &&& opt_string_view(d.catenation) == parsed_cat(meta)
    &&& opt_string_view(d.commit_ref) == parsed_commit(meta, topo)
}

/// Parses an identifier string into its fields.  The data part before
/// the first semicolon must hold exactly two whitespace-separated
/// fields, and the second must carry the supported version tag;
/// each failure is reported by its own error value.
pub fn parse_mofid(mofid: &str) -> (r: Result<MofIdData, MofIdError>)
    ensures
        ({
            let t = trim_spec(mofid@);
            let comps = split_ws(split_on(t, ';')[0]);
            &&& ((comps.len() != 2) <==> r == Err::<MofIdData, MofIdError>(
                MofIdError::InvalidFormat,
            ))
            &&& ((comps.len() == 2 && !has_prefix(split_on(comps[1], '.')[0], "MOFid-v1"@)) <==> r
                == Err::<MofIdData, MofIdError>(MofIdError::UnsupportedVersion))
            &&& ((comps.len() == 2 && has_prefix(split_on(comps[1], '.')[0], "MOFid-v1"@))
                <==> r is Ok)
            &&& (r matches Ok(d) ==> parse_fields_ok(mofid@, d))
        }),
{
    let trimmed = trim_str(mofid);
    let parts = split_on_char(trimmed, ';');
    proof {
        lemma_split_on_len(trimmed@, ';');
    }
    let name: String = if parts.len() > 1 {
        join_from(&parts, 1, ";")
    } else {
        String::new()
    };
    let comps = split_ws_str(parts[0].as_str());
    if comps.len() != 2 {
        return Err(MofIdError::InvalidFormat);
    }
    let smiles = comps[0].clone();
    let meta = split_on_char(comps[1].as_str(), '.');
    proof {
        lemma_split_on_len(comps@[1]@, '.');
    }
    if !starts_with_str(meta[0].as_str(), "MOFid-v1") {
        return Err(MofIdError::UnsupportedVersion);
    }
    let topology: String = if meta.len() > 1 {
        meta[1].clone()
    } else {
        String::from_str("NA")
    };
    let mut cat: Option<String> = None;
    let mut commit: Option<String> = None;
    let ghost metav = meta.deep_view();
    let mut i: usize = 0;
    while i < meta.len()
        invariant
            i <= meta@.len(),
            metav.len() == meta@.len(),
            metav == meta.deep_view(),
            forall|k: int| 0 <= k < meta@.len() ==> metav[k] == (#[trigger] meta@[k])@,
            opt_string_view(cat) == parsed_cat(metav.take(i as int)),
            opt_string_view(commit) == parsed_commit(metav.take(i as int), topology@),
        decreases meta@.len() - i,
    {
        let part_is_cat = starts_with_str(meta[i].as_str(), "cat");
        if part_is_cat {
            proof {
                reveal_strlit("cat");
            }
            let plen = meta[i].as_str().unicode_len();
            cat = Some(String::from_str(meta[i].as_str().substring_char(3, plen)));
        } else {
            if !starts_with_str(meta[i].as_str(), "MOFid") && !str_eq(
                meta[i].as_str(),
                topology.as_str(),
            ) {
                commit = Some(meta[i].clone());
            }
        }
        proof {
            assert(metav.take(i + 1).drop_last() =~= metav.take(i as int));
            assert(metav.take(i + 1).last() == metav[i as int]);
        }
        i = i + 1;
    }
    proof {
        assert(metav.take(metav.len() as int) =~= metav);
    }
    let topo_parts = split_on_char(topology.as_str(), ',');
    proof {
        lemma_split_on_len(topology@, ',');
    }
    let base_topology = topo_parts[0].clone();
    let tlen = topology.as_str().unicode_len();
    let comma = find_char_from(topology.as_str(), 0, ',');
    proof {
        lemma_find_ch_unique(topology@, ',', comma as int);
    }
    let extra_topology: Option<String> = if comma < tlen {
        Some(join_from(&topo_parts, 1, ","))
    } else {
        None
    };
    let smiles_part = split_on_char(smiles.as_str(), '.');
    Ok(
        MofIdData {
            name,
            smiles,
            smiles_part,
            topology,
            base_topology,
            extra_topology,
            catenation: cat,
            commit_ref: commit,
        },
    )
}

} // verus!
