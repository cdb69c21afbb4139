//! The fixed bundles that the sentinel targets expand to.

use vstd::prelude::*;

use crate::target::{bare_builtin, spec_builtin, ParseError, Spec};

verus! {

/// The preset bundle, in declaration order.
pub open spec fn spec_preset_list(v: Seq<Spec>) -> bool {
    &&& v.len() == 7
    &&& spec_builtin(v[0], "bopomofo"@)
    &&& spec_builtin(v[1], "cangjie"@)
    &&& spec_builtin(v[2], "essay"@)
    &&& spec_builtin(v[3], "luna-pinyin"@)
    &&& spec_builtin(v[4], "prelude"@)
    &&& spec_builtin(v[5], "stroke"@)
    &&& spec_builtin(v[6], "terra-pinyin"@)
}

/// The extra bundle, in declaration order.
pub open spec fn spec_extra_list(v: Seq<Spec>) -> bool {
    &&& v.len() == 15
    &&& spec_builtin(v[0], "array"@)
    &&& spec_builtin(v[1], "cantonese"@)
    &&& spec_builtin(v[2], "combo-pinyin"@)
    &&& spec_builtin(v[3], "double-pinyin"@)
    &&& spec_builtin(v[4], "emoji"@)
    &&& spec_builtin(v[5], "ipa"@)
    &&& spec_builtin(v[6], "jyutping"@)
    &&& spec_builtin(v[7], "middle-chinese"@)
    &&& spec_builtin(v[8], "pinyin-simp"@)
    &&& spec_builtin(v[9], "quick"@)
    &&& spec_builtin(v[10], "scj"@)
    &&& spec_builtin(v[11], "soutzoe"@)
    &&& spec_builtin(v[12], "stenotype"@)
    &&& spec_builtin(v[13], "wubi"@)
    &&& spec_builtin(v[14], "wugniu"@)
}

/// The specifications of the preset bundle.
pub fn preset() -> (r: Result<Vec<Spec>, ParseError>)
    ensures
        r matches Ok(v) && spec_preset_list(v@),
{
    let mut v: Vec<Spec> = Vec::new();
    v.push(bare_builtin("bopomofo"));
    v.push(bare_builtin("cangjie"));
    v.push(bare_builtin("essay"));
    v.push(bare_builtin("luna-pinyin"));
    v.push(bare_builtin("prelude"));
    v.push(bare_builtin("stroke"));
    v.push(bare_builtin("terra-pinyin"));
    Ok(v)
}

/// The specifications of the extra bundle.
pub fn extra() -> (r: Result<Vec<Spec>, ParseError>)
    ensures
        r matches Ok(v) && spec_extra_list(v@),
{
    let mut v: Vec<Spec> = Vec::new();
    v.push(bare_builtin("array"));
    v.push(bare_builtin("cantonese"));
    v.push(bare_builtin("combo-pinyin"));
    v.push(bare_builtin("double-pinyin"));
    v.push(bare_builtin("emoji"));
    v.push(bare_builtin("ipa"));
    v.push(bare_builtin("jyutping"));
    v.push(bare_builtin("middle-chinese"));
    v.push(bare_builtin("pinyin-simp"));
    v.push(bare_builtin("quick"));
    v.push(bare_builtin("scj"));
    v.push(bare_builtin("soutzoe"));
    v.push(bare_builtin("stenotype"));
    v.push(bare_builtin("wubi"));
    v.push(bare_builtin("wugniu"));
    Ok(v)
}

/// The union of the preset and extra bundles, preset first.
pub fn all() -> (r: Result<Vec<Spec>, ParseError>)
    ensures
        r matches Ok(v) && v@.len() == 22 && spec_preset_list(v@.subrange(0, 7))
            && spec_extra_list(v@.subrange(7, 22)),
{
    let mut v = match preset() {
        Ok(v) => v,
        Err(e) => {
            return Err(e);
        },
    };
    let mut e = match extra() {
        Ok(e) => e,
        Err(err) => {
            return Err(err);
        },
    };
    let ghost pv = v@;
    let ghost ev = e@;
    v.append(&mut e);
    proof {
        assert(v@.subrange(0, 7) =~= pv);
        assert(v@.subrange(7, 22) =~= ev);
    }
    Ok(v)
}

} // verus!

verus! {

/// Every specification of the preset bundle is well formed.
pub proof fn lemma_preset_list_wf(v: Seq<Spec>)
    requires
        spec_preset_list(v),
    ensures
        forall|j: int| 0 <= j < v.len() ==> (#[trigger] v[j]).wf(),
{
    assert forall|j: int| 0 <= j < v.len() implies (#[trigger] v[j]).wf() by {
        if j == 0 {
        } else if j == 1 {
        } else if j == 2 {
        } else if j == 3 {
        } else if j == 4 {
        } else if j == 5 {
        } else {
        }
    }
}

/// Every specification of the extra bundle is well formed.
pub proof fn lemma_extra_list_wf(v: Seq<Spec>)
    requires
        spec_extra_list(v),
    ensures
        forall|j: int| 0 <= j < v.len() ==> (#[trigger] v[j]).wf(),
{
    assert forall|j: int| 0 <= j < v.len() implies (#[trigger] v[j]).wf() by {
        if j == 0 {
        } else if j == 1 {
        } else if j == 2 {
        } else if j == 3 {
        } else if j == 4 {
        } else if j == 5 {
        } else if j == 6 {
        } else if j == 7 {
        } else if j == 8 {
        } else if j == 9 {
        } else if j == 10 {
        } else if j == 11 {
        } else if j == 12 {
        } else if j == 13 {
        } else {
        }
    }
}

} // verus!
