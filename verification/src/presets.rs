//! Compression presets: saving one replaces any of the same name, deleting
//! removes them by name. Reading and writing the presets file happens at the
//! edge of the program.

use vstd::prelude::*;

use crate::error::{config_msg, is_config_err, AppError, AppResult};
use crate::model::PresetConfig;
use crate::text::{chars_of, trim_chars, trim_ws};

verus! {

/// The presets not named `n`, in order.
pub open spec fn without_name(s: Seq<PresetConfig>, n: Seq<char>) -> Seq<PresetConfig>
    decreases s.len(),
{
    if s.len() == 0 {
        Seq::<PresetConfig>::empty()
    } else if s[0].name@ != n {
        seq![s[0]] + without_name(s.drop_first(), n)
    } else {
        without_name(s.drop_first(), n)
    }
}

fn names_equal(a: &String, b: &String) -> (r: bool)
    ensures
        r == (a@ == b@),
{
    let ac = chars_of(a.as_str());
    let bc = chars_of(b.as_str());
    if ac.len() != bc.len() {
        return false;
    }
    let r = crate::text::matches_at(ac.as_slice(), 0, bc.as_slice());
    assert(ac@.subrange(0, ac@.len() as int) =~= ac@);
    r
}

/// Removes the presets named `name`, keeping the order of the others.
pub fn delete_preset(presets: Vec<PresetConfig>, name: &String) -> (r: Vec<PresetConfig>)
    ensures
        r@ == without_name(presets@, name@),
{
    let mut rest = presets;
    let mut out: Vec<PresetConfig> = Vec::new();
    let ghost all = rest@;
    while rest.len() > 0
        invariant
            without_name(all, name@) == out@ + without_name(rest@, name@),
        decreases rest@.len(),
    {
        let ghost before = rest@;
        let p = rest.remove(0);
        assert(rest@ =~= before.drop_first());
        if !names_equal(&p.name, name) {
            out.push(p);
            assert(out@ + without_name(rest@, name@) =~= (out@.drop_last() + seq![before[0]])
                + without_name(before.drop_first(), name@));
        }
    }
    assert(out@ + without_name(rest@, name@) =~= out@);
    out
}

/// Saves `cfg` among `presets`, replacing any preset of the same name; a
/// blank name is refused.
pub fn save_preset(presets: Vec<PresetConfig>, cfg: PresetConfig) -> (r: AppResult<
    Vec<PresetConfig>,
>)
    ensures
        trim_ws(cfg.name@).len() == 0 ==> (r matches Err(e) && is_config_err(e, "预设名称不能为空"@)),
        trim_ws(cfg.name@).len() > 0 ==> (r matches Ok(v) && v@ == without_name(
            presets@,
            cfg.name@,
        ).push(cfg)),
{
    let nc = chars_of(cfg.name.as_str());
    let t = trim_chars(nc.as_slice());
    if t.len() == 0 {
        return Err(config_msg("预设名称不能为空"));
    }
    let mut v = delete_preset(presets, &cfg.name);
    v.push(cfg);
    Ok(v)
}

proof fn lemma_without_name_push(s: Seq<PresetConfig>, x: PresetConfig, n: Seq<char>)
    ensures
        without_name(s.push(x), n) == without_name(s, n) + without_name(seq![x], n),
    decreases s.len(),
{
    if s.len() == 0 {
        assert(s.push(x) =~= seq![x]);
        assert(without_name(s, n) =~= Seq::<PresetConfig>::empty());
        assert(Seq::<PresetConfig>::empty() + without_name(seq![x], n) =~= without_name(seq![x], n));
    } else {
        assert(s.push(x).drop_first() =~= s.drop_first().push(x));
        lemma_without_name_push(s.drop_first(), x, n);
        if s[0].name@ != n {
            assert(without_name(s.push(x), n) =~= seq![s[0]] + without_name(s.drop_first().push(x), n));
            assert(without_name(s.push(x), n) =~= without_name(s, n) + without_name(seq![x], n));
        } else {
            assert(without_name(s.push(x), n) =~= without_name(s.drop_first().push(x), n));
        }
    }
}

proof fn lemma_without_name_idem(s: Seq<PresetConfig>, n: Seq<char>)
    ensures
        without_name(without_name(s, n), n) == without_name(s, n),
    decreases s.len(),
{
    if s.len() > 0 {
        lemma_without_name_idem(s.drop_first(), n);
        if s[0].name@ != n {
            let w = without_name(s, n);
            assert(w[0] == s[0]);
            assert(w.drop_first() =~= without_name(s.drop_first(), n));
        }
    }
}

/// Law: deleting a preset right after saving it leaves the other presets
/// exactly as they were (and removes every earlier preset of that name).
pub proof fn law_delete_after_save(presets: Seq<PresetConfig>, cfg: PresetConfig)
    ensures
        without_name(without_name(presets, cfg.name@).push(cfg), cfg.name@) == without_name(
            presets,
            cfg.name@,
        ),
{
    let n = cfg.name@;
    lemma_without_name_push(without_name(presets, n), cfg, n);
    lemma_without_name_idem(presets, n);
    assert(without_name(seq![cfg], n) =~= Seq::<PresetConfig>::empty()) by {
        assert(seq![cfg].drop_first() =~= Seq::<PresetConfig>::empty());
        assert(without_name(Seq::<PresetConfig>::empty(), n) =~= Seq::<PresetConfig>::empty());
        assert(seq![cfg][0].name@ == n);
    }
    assert(without_name(presets, n) + Seq::<PresetConfig>::empty() =~= without_name(presets, n));
}

/// Law: after saving, exactly one preset carries the saved name, the last.
pub proof fn law_save_unique(presets: Seq<PresetConfig>, cfg: PresetConfig)
    ensures
        ({
            let v = without_name(presets, cfg.name@).push(cfg);
            &&& v.last() == cfg
            &&& forall|i: int| 0 <= i < v.len() - 1 ==> (#[trigger] v[i]).name@ != cfg.name@
        }),
{
    lemma_without_name_excludes(presets, cfg.name@);
}

proof fn lemma_without_name_excludes(s: Seq<PresetConfig>, n: Seq<char>)
    ensures
        forall|i: int|
            0 <= i < without_name(s, n).len() ==> (#[trigger] without_name(s, n)[i]).name@ != n,
    decreases s.len(),
{
    if s.len() > 0 {
        lemma_without_name_excludes(s.drop_first(), n);
        let w = without_name(s, n);
        if s[0].name@ != n {
            assert forall|i: int| 0 <= i < w.len() implies (#[trigger] w[i]).name@ != n by {
                if i > 0 {
                    assert(w[i] == without_name(s.drop_first(), n)[i - 1]);
                }
            }
        }
    }
}

} // verus!
