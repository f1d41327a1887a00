//! Command-line entry points around the library.

use vstd::prelude::*;

use crate::errors::ConfigTreeError;

verus! {

/// The exploratory analysis command. Its workspace-loading driver lives
/// outside the library; the command itself has nothing to do yet.
pub struct Oguz {}

impl Oguz {
    /// Runs the command.
    pub fn run(&self) -> (r: Result<(), ConfigTreeError>)
        ensures
            r is Ok,
    {
        Ok(())
    }
}

/// The segments of a canonical path joined by `::`.
pub open spec fn joined_path(parts: Seq<Seq<char>>) -> Seq<char>
    decreases parts.len(),
{
    if parts.len() == 0 {
        Seq::empty()
    } else if parts.len() == 1 {
        parts[0]
    } else {
        joined_path(parts.drop_last()) + "::"@ + parts.last()
    }
}

/// The segments a canonical path is built from: the crate's display name
/// if it has one, then the module path from the root down, then the item.
pub open spec fn canon_segments(
    crate_name: Option<String>,
    module_names: Seq<String>,
    item_name: Option<String>,
) -> Seq<Seq<char>> {
    (match crate_name {
        Some(c) => seq![c@],
        None => Seq::empty(),
    }) + module_names.map(|i: int, s: String| s@) + (match item_name {
        Some(n) => seq![n@],
        None => Seq::empty(),
    })
}

/// Builds the canonical `::`-separated path of an item from its crate's
/// display name, its module path (root first) and its own name.
pub fn canon_path(
    crate_name: Option<String>,
    module_names: Vec<String>,
    item_name: Option<String>,
) -> (r: String)
    ensures
        r@ == joined_path(canon_segments(crate_name, module_names@, item_name)),
{
    let ghost all = canon_segments(crate_name, module_names@, item_name);
    let mut parts: Vec<String> = Vec::new();
    match &crate_name {
        Some(c) => parts.push(c.clone()),
        None => {},
    }
    let mut i: usize = 0;
    while i < module_names.len()
        invariant
            i <= module_names@.len(),
            parts@.len() == i + (if crate_name is Some {
                1int
            } else {
                0int
            }),
            forall|k: int| 0 <= k < parts@.len() ==> #[trigger] parts@[k]@ == all[k],
            all == canon_segments(crate_name, module_names@, item_name),
            all.len() == module_names@.len() + (if crate_name is Some {
                1int
            } else {
                0int
            }) + (if item_name is Some {
                1int
            } else {
                0int
            }),
        decreases module_names@.len() - i,
    {
        parts.push(module_names[i].clone());
        i += 1;
    }
    match &item_name {
        Some(n) => parts.push(n.clone()),
        None => {},
    }
    proof {
        assert(parts@.len() == all.len());
        assert(forall|k: int| 0 <= k < parts@.len() ==> #[trigger] parts@[k]@ == all[k]);
    }
    let mut out = String::new();
    let mut j: usize = 0;
    while j < parts.len()
        invariant
            j <= parts@.len(),
            parts@.len() == all.len(),
            forall|k: int| 0 <= k < parts@.len() ==> #[trigger] parts@[k]@ == all[k],
            out@ == joined_path(all.take(j as int)),
        decreases parts@.len() - j,
    {
        if j > 0 {
            vstd::string::StringExecFns::append(&mut out, "::");
        }
        vstd::string::StringExecFns::append(&mut out, parts[j].as_str());
        proof {
            assert(all.take(j + 1int).drop_last() =~= all.take(j as int));
            assert(all.take(j + 1int).last() == all[j as int]);
            if j == 0 {
                assert(out@ == all[0]);
                assert(joined_path(all.take(1int)) == all.take(1int)[0]);
            }
        }
        j += 1;
    }
    proof {
        assert(all.take(all.len() as int) =~= all);
    }
    out
}

} // verus!
