//! The string-building core of the struct-field expansion assist.
//!
//! Expanding a field `k : A` replaces it with one field per visible field
//! of `A`, each named `k_<field>` and keeping the target field's
//! visibility. Resolving `A`, its fields, their visibility from the target
//! module and their instantiated type texts is name-resolution work that
//! stays with the caller; this core takes those as plain values and decides
//! the replacement declarations.

use vstd::prelude::*;

verus! {

/// One field of the source struct, as the caller resolved it: whether it
/// is visible from the target module, its name, and its type's text with
/// generic arguments already substituted.
#[derive(Debug, Clone)]
pub struct SourceField {
    pub visible: bool,
    pub name: String,
    pub ty: String,
}

/// The replacement declaration one visible source field contributes.
pub open spec fn field_decl(vis: Seq<char>, target: Seq<char>, name: Seq<char>, ty: Seq<char>)
    -> Seq<char> {
    vis + target + "_"@ + name + " : "@ + ty
}

/// The declarations of all visible source fields, in order.
pub open spec fn expanded_decls(vis: Seq<char>, target: Seq<char>, fields: Seq<SourceField>)
    -> Seq<Seq<char>>
    decreases fields.len(),
{
    if fields.len() == 0 {
        Seq::empty()
    } else {
        let rest = expanded_decls(vis, target, fields.drop_last());
        let f = fields.last();
        if f.visible {
            rest.push(field_decl(vis, target, f.name@, f.ty@))
        } else {
            rest
        }
    }
}

/// Computes the replacement field declarations for expanding a struct
/// field: one declaration per visible source field, in order. Returns
/// `None` — the assist is not applicable — when no source field is
/// visible from the target module.
pub fn expand_struct_field(target_vis: &String, target_name: &String, fields: &Vec<SourceField>)
    -> (r: Option<Vec<String>>)
    ensures
        ({
            let decls = expanded_decls(target_vis@, target_name@, fields@);
            match r {
                None => decls.len() == 0,
                Some(out) => decls.len() > 0 && out@.len() == decls.len() && forall|k: int|
                    0 <= k < out@.len() ==> #[trigger] out@[k]@ == decls[k],
            }
        }),
{
    let ghost all = expanded_decls(target_vis@, target_name@, fields@);
    let mut out: Vec<String> = Vec::new();
    let mut i: usize = 0;
    let n = fields.len();
    while i < n
        invariant
            i <= n,
            n == fields@.len(),
            all == expanded_decls(target_vis@, target_name@, fields@),
            out@.len() == expanded_decls(target_vis@, target_name@, fields@.take(i as int)).len(),
            forall|k: int| 0 <= k < out@.len() ==> #[trigger] out@[k]@ == expanded_decls(
                target_vis@,
                target_name@,
                fields@.take(i as int),
            )[k],
        decreases n - i,
    {
        let ghost prefix = fields@.take(i as int);
        if fields[i].visible {
            let mut decl = target_vis.clone();
            vstd::string::StringExecFns::append(&mut decl, target_name.as_str());
            vstd::string::StringExecFns::append(&mut decl, "_");
            vstd::string::StringExecFns::append(&mut decl, fields[i].name.as_str());
            vstd::string::StringExecFns::append(&mut decl, " : ");
            vstd::string::StringExecFns::append(&mut decl, fields[i].ty.as_str());
            proof {
                assert(decl@ == field_decl(
                    target_vis@,
                    target_name@,
                    fields@[i as int].name@,
                    fields@[i as int].ty@,
                ));
            }
            out.push(decl);
        }
        proof {
            assert(fields@.take(i + 1int).drop_last() =~= prefix);
            assert(fields@.take(i + 1int).last() == fields@[i as int]);
        }
        i += 1;
    }
    proof {
        assert(fields@.take(n as int) =~= fields@);
    }
    if out.len() == 0 {
        None
    } else {
        Some(out)
    }
}

} // verus!
