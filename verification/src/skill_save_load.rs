//! What loading gives back of the skill files that saving wrote.
use vstd::prelude::*;
use crate::ids::SkillId;
use crate::loader::skills_of;
use crate::vec_util::{ascending_order, lemma_lists_ascending_unique, lists_ascending};
use crate::skill::SkillView;
use crate::skill_dat::{
    initial_state, skill_fold, skill_step, skills_count, sounds_match, SkillGrpDatView,
    SkillNameDat, SkillNameTableRecord, SkillSoundDat, SkillSoundSourceDat, is_sound_record, is_source_record,
};
use crate::skill_layout::{drawn_from, gstable, kstable, lemma_drawn_trans, lemma_gstable_trans, lemma_kstable_trans, lemma_within_concat, within};
use crate::skill_reread::{dict_of, lemma_levels_shape, named, lemma_named_split, lemma_names_by_key_distinct};
use crate::skill_load::{
    kept_records, level_record_count, name_key, names_by_key, skill_from, skill_runs, sound_for, sounds_by_id,
    source_for, sources_by_id, store_skills, texts_by_id, lemma_skill_runs,
};
use crate::skill_round_trip::{
    general_texts, lemma_form_numbered, lemma_gexact, lemma_skill_read, lemma_skill_step_written,
    skill_form, skill_lay, spelled_alike, upper_animations, written_fits,
};

verus! {

/// The records written for skills, one after the other, as the final tables number
/// them.
pub open spec fn skills_lay(ss: Seq<SkillView>, e: Seq<Seq<char>>, kk: Seq<Seq<char>>) -> (
    Seq<SkillGrpDatView>,
    Seq<SkillNameDat>,
)
    decreases ss.len(),
{
    if ss.len() == 0 {
        (seq![], seq![])
    } else {
        let p = skills_lay(ss.drop_last(), e, kk);
        let x = skill_lay(ss.last(), e, kk);
        (p.0 + x.0, p.1 + x.1)
    }
}

/// The texts that writing the skills numbers through the general table, in order.
pub open spec fn skills_gtexts(ss: Seq<SkillView>) -> Seq<Seq<char>>
    decreases ss.len(),
{
    if ss.len() == 0 {
        seq![]
    } else {
        skills_gtexts(ss.drop_last()) + general_texts(ss.last())
    }
}

/// Writing skills with levels appends the records laid out by the final tables;
/// the tables only extend, within the counted growth, by texts of the pool; the
/// sound records are listed with the general table each skill was written with.
#[verifier::spinoff_prover]
pub proof fn lemma_skills_written(
    st0: crate::skill_dat::SerState,
    ss: Seq<SkillView>,
    e: Seq<Seq<char>>,
    kk: Seq<Seq<char>>,
    pool: Seq<Seq<char>>,
)
    requires
        within(skills_gtexts(ss), pool),
        forall|i: int|
            0 <= i < ss.len() ==> crate::skill_round_trip::sounds_round_trip((#[trigger] ss[i]).sound_info)
                && ss[i].skill_levels.len() > 0,
        gstable(skill_fold(st0, ss).gdn, e),
        kstable(skill_fold(st0, ss).sk, kk),
    ensures
        ({
            let r = skill_fold(st0, ss);
            let x = skills_lay(ss, e, kk);
            &&& r.grps == st0.grps + x.0
            &&& r.names == st0.names + x.1
            &&& gstable(st0.gdn, r.gdn)
            &&& kstable(st0.sk, r.sk)
            &&& drawn_from(r.gdn, st0.gdn, pool)
            &&& r.gdn.len() <= st0.gdn.len() + skills_count(ss)
            &&& r.sk.len() <= st0.sk.len() + skills_count(ss)
            &&& r.sound_skills == st0.sound_skills + ss
            &&& r.sound_gdn.len() == st0.sound_gdn.len() + ss.len()
            &&& forall|i: int| 0 <= i < st0.sound_gdn.len() ==> #[trigger] r.sound_gdn[i] == st0.sound_gdn[i]
            &&& forall|i: int|
                0 <= i < ss.len() ==> written_fits(#[trigger] ss[i], r.sound_gdn[st0.sound_gdn.len() + i], e, kk, pool)
        }),
    decreases ss.len(),
{
    let r = skill_fold(st0, ss);
    if ss.len() == 0 {
        assert(st0.grps + Seq::<SkillGrpDatView>::empty() =~= st0.grps);
        assert(st0.names + Seq::<SkillNameDat>::empty() =~= st0.names);
        assert(st0.sound_skills + ss =~= st0.sound_skills);
        assert forall|i: int| 0 <= i < st0.gdn.len() implies st0.gdn.contains(#[trigger] st0.gdn[i])
            || pool.contains(st0.gdn[i]) by {}
    } else {
        let dl = ss.drop_last();
        let s = ss.last();
        let last = ss.len() - 1;
        assert(s == ss[last]);
        let mid = skill_fold(st0, dl);
        assert(r == skill_step(mid, s));
        assert(skills_gtexts(ss) == skills_gtexts(dl) + general_texts(s));
        lemma_within_concat(skills_gtexts(dl), general_texts(s), pool);
        lemma_skill_step_written(mid, s, e, kk, pool);
        lemma_gstable_trans(mid.gdn, r.gdn, e);
        lemma_kstable_trans(mid.sk, r.sk, kk);
        assert forall|i: int| 0 <= i < dl.len() implies crate::skill_round_trip::sounds_round_trip(
            (#[trigger] dl[i]).sound_info,
        ) && dl[i].skill_levels.len() > 0 by {
            assert(dl[i] == ss[i]);
        }
        lemma_skills_written(st0, dl, e, kk, pool);
        let x = skills_lay(ss, e, kk);
        let xd = skills_lay(dl, e, kk);
        assert(r.grps =~= st0.grps + x.0);
        assert(r.names =~= st0.names + x.1);
        lemma_gstable_trans(st0.gdn, mid.gdn, r.gdn);
        lemma_kstable_trans(st0.sk, mid.sk, r.sk);
        lemma_drawn_trans(r.gdn, mid.gdn, st0.gdn, pool);
        assert(r.sound_skills =~= st0.sound_skills + ss);
        let b = st0.sound_gdn.len();
        assert forall|i: int| 0 <= i < b implies #[trigger] r.sound_gdn[i] == st0.sound_gdn[i] by {
            assert(mid.sound_gdn[i] == st0.sound_gdn[i]);
        }
        assert forall|i: int| 0 <= i < ss.len() implies written_fits(#[trigger] ss[i], r.sound_gdn[b + i], e, kk, pool) by {
            if i < last {
                assert(dl[i] == ss[i]);
                assert(written_fits(dl[i], mid.sound_gdn[b + i], e, kk, pool));
                assert(r.sound_gdn[b + i] == mid.sound_gdn[b + i]);
            } else {
                assert(r.sound_gdn[b + i] == mid.gdn);
            }
        }
    }
}

/// Whether each record's key is that of the name record at its position, and no
/// two name records share a key.
pub open spec fn keyed(recs: Seq<SkillGrpDatView>, ns: Seq<SkillNameDat>) -> bool {
    &&& recs.len() == ns.len()
    &&& forall|i: int|
        0 <= i < recs.len() ==> name_key((#[trigger] recs[i]).id as u32, recs[i].level as i16, recs[i].sub_level)
            == name_key(ns[i].id, ns[i].level, ns[i].sub_level)
    &&& forall|i: int, j: int|
        0 <= i < j < ns.len() ==> name_key((#[trigger] ns[i]).id, ns[i].level, ns[i].sub_level) != name_key(
            (#[trigger] ns[j]).id,
            ns[j].level,
            ns[j].sub_level,
        )
}

/// Keyed records find their name records by key.
pub proof fn lemma_keyed_named(recs: Seq<SkillGrpDatView>, ns: Seq<SkillNameDat>)
    requires
        keyed(recs, ns),
    ensures
        named(recs, ns, names_by_key(ns)),
{
    assert forall|i: int| 0 <= i < recs.len() implies crate::skill_load::name_of(names_by_key(ns), #[trigger] recs[i]) == ns[i] by {
        assert forall|q: int| 0 <= q < ns.len() && q != i implies name_key(ns[q].id, ns[q].level, ns[q].sub_level)
            != name_key(ns[i].id, ns[i].level, ns[i].sub_level) by {
            if q < i {
                assert(name_key(ns[q].id, ns[q].level, ns[q].sub_level) != name_key(ns[i].id, ns[i].level, ns[i].sub_level));
            } else {
                assert(name_key(ns[i].id, ns[i].level, ns[i].sub_level) != name_key(ns[q].id, ns[q].level, ns[q].sub_level));
            }
        }
        lemma_names_by_key_distinct(ns, i);
    }
}

/// Keys differ where skill, level or sub-level differ.
pub proof fn lemma_key_inj(id1: u32, l1: i16, s1: i16, id2: u32, l2: i16, s2: i16)
    requires
        0 <= l1,
        0 <= s1,
        0 <= l2,
        0 <= s2,
        id1 != id2 || l1 != l2 || s1 != s2,
    ensures
        name_key(id1, l1, s1) != name_key(id2, l2, s2),
{
    let a1 = (l1 as u16) as int;
    let b1 = (s1 as u16) as int;
    let a2 = (l2 as u16) as int;
    let b2 = (s2 as u16) as int;
    assert(a1 == l1 && b1 == s1 && a2 == l2 && b2 == s2);
    let i1 = id1 as int;
    let i2 = id2 as int;
    assert(0 <= i1 * 0x1_0000_0000 + a1 * 0x10000 + b1 <= u64::MAX) by (nonlinear_arith)
        requires
            0 <= i1 <= 0xffff_ffff,
            0 <= a1 <= 0x7fff,
            0 <= b1 <= 0x7fff,
    ;
    assert(0 <= i2 * 0x1_0000_0000 + a2 * 0x10000 + b2 <= u64::MAX) by (nonlinear_arith)
        requires
            0 <= i2 <= 0xffff_ffff,
            0 <= a2 <= 0x7fff,
            0 <= b2 <= 0x7fff,
    ;
    assert(i1 * 0x1_0000_0000 + a1 * 0x10000 + b1 != i2 * 0x1_0000_0000 + a2 * 0x10000 + b2) by (nonlinear_arith)
        requires
            0 <= a1 <= 0x7fff,
            0 <= b1 <= 0x7fff,
            0 <= a2 <= 0x7fff,
            0 <= b2 <= 0x7fff,
            i1 != i2 || a1 != a2 || b1 != b2,
    ;
}

/// The records written for one skill are keyed, carry the skill's id, and have
/// levels and sub-levels of at least 0.
pub proof fn lemma_skill_keyed(s: SkillView, e: Seq<Seq<char>>, kk: Seq<Seq<char>>)
    requires
        skill_form(s),
    ensures
        ({
            let x = skill_lay(s, e, kk);
            &&& keyed(x.0, x.1)
            &&& forall|i: int|
                0 <= i < x.1.len() ==> (#[trigger] x.1[i]).id == s.id.0 && x.1[i].level >= 0 && x.1[i].sub_level >= 0
                    && x.0[i].id == s.id.0 as u16
        }),
{
    let g0 = crate::skill_dat::grp_fill_skill(crate::skill_dat::zero_grp(), s, e).0;
    let n0 = crate::skill_dat::name_fill_skill(crate::skill_dat::zero_name(), s, kk).0;
    lemma_form_numbered(s);
    assert(g0.sub_level == 0 && n0.sub_level == 0);
    assert(g0.id == s.id.0 as u16 && n0.id == s.id.0);
    lemma_levels_shape(g0, n0, s.skill_levels, e, kk);
    let x = skill_lay(s, e, kk);
    assert forall|i: int| 0 <= i < x.0.len() implies name_key((#[trigger] x.0[i]).id as u32, x.0[i].level as i16, x.0[i].sub_level)
        == name_key(x.1[i].id, x.1[i].level, x.1[i].sub_level) by {
        assert(x.0[i].id == g0.id);
    }
    assert forall|i: int, j: int| 0 <= i < j < x.1.len() implies name_key((#[trigger] x.1[i]).id, x.1[i].level, x.1[i].sub_level)
        != name_key((#[trigger] x.1[j]).id, x.1[j].level, x.1[j].sub_level) by {
        assert(x.0[i].id == g0.id);
        assert(x.0[j].id == g0.id);
        lemma_key_inj(x.1[i].id, x.1[i].level, x.1[i].sub_level, x.1[j].id, x.1[j].level, x.1[j].sub_level);
    }
    assert forall|i: int| 0 <= i < x.1.len() implies (#[trigger] x.1[i]).id == s.id.0 && x.1[i].level >= 0
        && x.1[i].sub_level >= 0 && x.0[i].id == s.id.0 as u16 by {
        assert(x.0[i].id == g0.id);
    }
}

/// The records written for skills in ascending order of id are keyed.
#[verifier::spinoff_prover]
pub proof fn lemma_skills_keyed(ss: Seq<SkillView>, e: Seq<Seq<char>>, kk: Seq<Seq<char>>)
    requires
        forall|i: int| 0 <= i < ss.len() ==> skill_form(#[trigger] ss[i]),
        forall|i: int, j: int| 0 <= i < j < ss.len() ==> (#[trigger] ss[i]).id.0 < (#[trigger] ss[j]).id.0,
    ensures
        ({
            let x = skills_lay(ss, e, kk);
            &&& keyed(x.0, x.1)
            &&& forall|i: int|
                0 <= i < x.1.len() ==> (#[trigger] x.1[i]).level >= 0 && x.1[i].sub_level >= 0 && x.1[i].id <= ss.last().id.0
        }),
    decreases ss.len(),
{
    if ss.len() > 0 {
        let dl = ss.drop_last();
        let s = ss.last();
        let last = ss.len() - 1;
        assert(s == ss[last]);
        assert forall|i: int| 0 <= i < dl.len() implies skill_form(#[trigger] dl[i]) by {
            assert(dl[i] == ss[i]);
        }
        assert forall|i: int, j: int| 0 <= i < j < dl.len() implies (#[trigger] dl[i]).id.0 < (#[trigger] dl[j]).id.0 by {
            assert(dl[i] == ss[i] && dl[j] == ss[j]);
        }
        lemma_skills_keyed(dl, e, kk);
        lemma_skill_keyed(s, e, kk);
        let x = skills_lay(ss, e, kk);
        let xd = skills_lay(dl, e, kk);
        let xs = skill_lay(s, e, kk);
        assert(x.0 == xd.0 + xs.0);
        assert(x.1 == xd.1 + xs.1);
        let m = xd.0.len();
        if dl.len() > 0 {
            assert(dl.last() == ss[last - 1]);
            assert(ss[last - 1].id.0 < ss[last].id.0);
        }
        assert forall|i: int| 0 <= i < x.0.len() implies name_key((#[trigger] x.0[i]).id as u32, x.0[i].level as i16, x.0[i].sub_level)
            == name_key(x.1[i].id, x.1[i].level, x.1[i].sub_level) by {
            if i < m {
                assert(x.0[i] == xd.0[i] && x.1[i] == xd.1[i]);
            } else {
                assert(x.0[i] == xs.0[i - m] && x.1[i] == xs.1[i - m]);
            }
        }
        assert forall|i: int, j: int| 0 <= i < j < x.1.len() implies name_key((#[trigger] x.1[i]).id, x.1[i].level, x.1[i].sub_level)
            != name_key((#[trigger] x.1[j]).id, x.1[j].level, x.1[j].sub_level) by {
            if j < m {
                assert(x.1[i] == xd.1[i] && x.1[j] == xd.1[j]);
            } else if i >= m {
                assert(x.1[i] == xs.1[i - m] && x.1[j] == xs.1[j - m]);
            } else {
                assert(x.1[i] == xd.1[i] && x.1[j] == xs.1[j - m]);
                assert(xd.1[i].id <= dl.last().id.0);
                assert(xs.1[j - m].id == s.id.0);
                lemma_key_inj(x.1[i].id, x.1[i].level, x.1[i].sub_level, x.1[j].id, x.1[j].level, x.1[j].sub_level);
            }
        }
        assert forall|i: int| 0 <= i < x.1.len() implies (#[trigger] x.1[i]).level >= 0 && x.1[i].sub_level >= 0
            && x.1[i].id <= ss.last().id.0 by {
            if i < m {
                assert(x.1[i] == xd.1[i]);
                assert(xd.1[i].id <= dl.last().id.0);
            } else {
                assert(x.1[i] == xs.1[i - m]);
            }
        }
    }
}

/// The records and name records written for skills are as many.
pub proof fn lemma_skills_lay_len(ss: Seq<SkillView>, e: Seq<Seq<char>>, kk: Seq<Seq<char>>)
    requires
        forall|i: int| 0 <= i < ss.len() ==> (#[trigger] skill_lay(ss[i], e, kk)).0.len() == skill_lay(ss[i], e, kk).1.len(),
    ensures
        skills_lay(ss, e, kk).0.len() == skills_lay(ss, e, kk).1.len(),
    decreases ss.len(),
{
    if ss.len() > 0 {
        let dl = ss.drop_last();
        assert forall|i: int| 0 <= i < dl.len() implies (#[trigger] skill_lay(dl[i], e, kk)).0.len() == skill_lay(dl[i], e, kk).1.len() by {
            assert(dl[i] == ss[i]);
        }
        lemma_skills_lay_len(dl, e, kk);
        assert(ss.last() == ss[ss.len() - 1]);
        assert(skill_lay(ss[ss.len() - 1], e, kk).0.len() == skill_lay(ss[ss.len() - 1], e, kk).1.len());
    }
}

/// Where the records of skills find their name records, so do those of each skill.
pub proof fn lemma_skills_named(ss: Seq<SkillView>, e: Seq<Seq<char>>, kk: Seq<Seq<char>>, nm: Map<u64, SkillNameDat>)
    requires
        forall|i: int| 0 <= i < ss.len() ==> (#[trigger] skill_lay(ss[i], e, kk)).0.len() == skill_lay(ss[i], e, kk).1.len(),
        named(skills_lay(ss, e, kk).0, skills_lay(ss, e, kk).1, nm),
    ensures
        forall|i: int| 0 <= i < ss.len() ==> #[trigger] named(skill_lay(ss[i], e, kk).0, skill_lay(ss[i], e, kk).1, nm),
    decreases ss.len(),
{
    if ss.len() > 0 {
        let dl = ss.drop_last();
        let s = ss.last();
        let last = ss.len() - 1;
        assert(s == ss[last]);
        assert forall|i: int| 0 <= i < dl.len() implies (#[trigger] skill_lay(dl[i], e, kk)).0.len() == skill_lay(dl[i], e, kk).1.len() by {
            assert(dl[i] == ss[i]);
        }
        let x = skills_lay(ss, e, kk);
        let xd = skills_lay(dl, e, kk);
        let xs = skill_lay(s, e, kk);
        assert(skill_lay(ss[last], e, kk).0.len() == skill_lay(ss[last], e, kk).1.len());
        assert(x.0 == xd.0 + xs.0);
        assert(x.1 == xd.1 + xs.1);
        lemma_skills_lay_len(dl, e, kk);
        lemma_named_split(xd.0, xs.0, xd.1, xs.1, nm);
        lemma_skills_named(dl, e, kk, nm);
        assert forall|i: int| 0 <= i < ss.len() implies #[trigger] named(skill_lay(ss[i], e, kk).0, skill_lay(ss[i], e, kk).1, nm) by {
            if i < last {
                assert(dl[i] == ss[i]);
            }
        }
    }
}

/// The runs of records written for skills: one per skill, in order.
pub open spec fn skills_runs(ss: Seq<SkillView>, e: Seq<Seq<char>>, kk: Seq<Seq<char>>) -> Seq<Seq<SkillGrpDatView>>
    decreases ss.len(),
{
    if ss.len() == 0 {
        seq![]
    } else {
        skills_runs(ss.drop_last(), e, kk).push(skill_lay(ss.last(), e, kk).0)
    }
}

/// Appending a non-empty run of one skill id that differs from the last record's
/// adds that run.
pub proof fn lemma_runs_append(a: Seq<SkillGrpDatView>, b: Seq<SkillGrpDatView>, id: u16)
    requires
        b.len() > 0,
        forall|i: int| 0 <= i < b.len() ==> (#[trigger] b[i]).id == id,
        a.len() > 0 ==> a.last().id != id,
    ensures
        skill_runs(a + b) == skill_runs(a).push(b),
    decreases b.len(),
{
    lemma_skill_runs(a);
    if b.len() == 1 {
        assert((a + b).drop_last() =~= a);
        assert((a + b).last() == b[0]);
        assert(seq![b[0]] =~= b);
    } else {
        let bd = b.drop_last();
        assert forall|i: int| 0 <= i < bd.len() implies (#[trigger] bd[i]).id == id by {
            assert(bd[i] == b[i]);
        }
        lemma_runs_append(a, bd, id);
        assert((a + b).drop_last() =~= a + bd);
        assert((a + b).last() == b[b.len() - 1]);
        let prev = skill_runs(a + bd);
        assert(prev == skill_runs(a).push(bd));
        assert(prev.last() == bd);
        assert(bd.last() == b[b.len() - 2]);
        assert(prev.update(prev.len() - 1, bd.push(b[b.len() - 1])) =~= skill_runs(a).push(b)) by {
            assert(bd.push(b[b.len() - 1]) =~= b);
        }
    }
}

/// Whether the records written for each skill are non-empty and carry its id.
pub open spec fn runs_shaped(ss: Seq<SkillView>, e: Seq<Seq<char>>, kk: Seq<Seq<char>>) -> bool {
    &&& forall|i: int|
        0 <= i < ss.len() ==> (#[trigger] skill_lay(ss[i], e, kk)).0.len() > 0 && ss[i].id.0 <= 0xffff
    &&& forall|i: int, r: int|
        0 <= i < ss.len() && 0 <= r < skill_lay(ss[i], e, kk).0.len() ==> (#[trigger] skill_lay(ss[i], e, kk).0[r]).id
            == ss[i].id.0 as u16
    &&& forall|i: int, j: int| 0 <= i < j < ss.len() ==> (#[trigger] ss[i]).id.0 < (#[trigger] ss[j]).id.0
}

/// Skills whose records are shaped as runs stay so without the last.
pub proof fn lemma_runs_shaped_prefix(ss: Seq<SkillView>, e: Seq<Seq<char>>, kk: Seq<Seq<char>>)
    requires
        runs_shaped(ss, e, kk),
        ss.len() > 0,
    ensures
        runs_shaped(ss.drop_last(), e, kk),
        ss.last() == ss[ss.len() - 1],
{
    let dl = ss.drop_last();
    assert forall|i: int| 0 <= i < dl.len() implies #[trigger] dl[i] == ss[i] by {}
    assert forall|i: int, r: int| 0 <= i < dl.len() && 0 <= r < skill_lay(dl[i], e, kk).0.len() implies (#[trigger] skill_lay(
        dl[i],
        e,
        kk,
    ).0[r]).id == dl[i].id.0 as u16 by {
        assert(dl[i] == ss[i]);
    }
    assert forall|i: int, j: int| 0 <= i < j < dl.len() implies (#[trigger] dl[i]).id.0 < (#[trigger] dl[j]).id.0 by {
        assert(dl[i] == ss[i] && dl[j] == ss[j]);
    }
}

/// The records written for skills in ascending order of id split into one run per
/// skill; every record carries an id of a listed skill.
#[verifier::spinoff_prover]
pub proof fn lemma_skills_runs(ss: Seq<SkillView>, e: Seq<Seq<char>>, kk: Seq<Seq<char>>, ids: Set<u32>)
    requires
        runs_shaped(ss, e, kk),
        forall|i: int| 0 <= i < ss.len() ==> ids.contains((#[trigger] ss[i]).id.0),
    ensures
        skill_runs(skills_lay(ss, e, kk).0) == skills_runs(ss, e, kk),
        ss.len() > 0 ==> skills_lay(ss, e, kk).0.len() > 0 && skills_lay(ss, e, kk).0.last().id == ss.last().id.0 as u16,
        forall|r: int|
            0 <= r < skills_lay(ss, e, kk).0.len() ==> ids.contains((#[trigger] skills_lay(ss, e, kk).0[r]).id as u32),
    decreases ss.len(),
{
    if ss.len() == 0 {
        assert(skill_runs(Seq::<SkillGrpDatView>::empty()) == Seq::<Seq<SkillGrpDatView>>::empty());
    } else {
        let dl = ss.drop_last();
        let s = ss.last();
        let last = ss.len() - 1;
        lemma_runs_shaped_prefix(ss, e, kk);
        assert forall|i: int| 0 <= i < dl.len() implies ids.contains((#[trigger] dl[i]).id.0) by {
            assert(dl[i] == ss[i]);
        }
        lemma_skills_runs(dl, e, kk, ids);
        let xd = skills_lay(dl, e, kk).0;
        let xs = skill_lay(s, e, kk).0;
        assert(skills_lay(ss, e, kk).0 == xd + xs);
        assert(xs.len() > 0);
        assert forall|i: int| 0 <= i < xs.len() implies (#[trigger] xs[i]).id == s.id.0 as u16 by {
            assert(skill_lay(ss[last], e, kk).0[i].id == ss[last].id.0 as u16);
        }
        if dl.len() > 0 {
            assert(dl.last() == ss[last - 1]);
            assert(ss[last - 1].id.0 < ss[last].id.0);
            assert(ss[last - 1].id.0 <= 0xffff && ss[last].id.0 <= 0xffff) by {
                assert(skill_lay(ss[last - 1], e, kk).0.len() > 0);
                assert(skill_lay(ss[last], e, kk).0.len() > 0);
            }
        }
        lemma_runs_append(xd, xs, s.id.0 as u16);
        assert((xd + xs).last() == xs[xs.len() - 1]);
        assert forall|r: int| 0 <= r < (xd + xs).len() implies ids.contains((#[trigger] (xd + xs)[r]).id as u32) by {
            if r < xd.len() {
                assert((xd + xs)[r] == xd[r]);
            } else {
                assert((xd + xs)[r] == xs[r - xd.len()]);
                assert(skill_lay(ss[last], e, kk).0.len() > 0);
                assert(ids.contains(ss[last].id.0));
            }
        }
    }
}

/// Every record whose skill is listed is kept.
pub proof fn lemma_all_listed_kept(all: Seq<SkillGrpDatView>, ids: Set<u32>)
    requires
        forall|r: int| 0 <= r < all.len() ==> ids.contains((#[trigger] all[r]).id as u32),
    ensures
        kept_records(all, ids) == all,
    decreases all.len(),
{
    if all.len() > 0 {
        let d = all.drop_last();
        assert forall|r: int| 0 <= r < d.len() implies ids.contains((#[trigger] d[r]).id as u32) by {
            assert(d[r] == all[r]);
        }
        lemma_all_listed_kept(d, ids);
        assert(all.last() == all[all.len() - 1]);
        assert(d.push(all.last()) =~= all);
    }
}

/// The skills by id, a later one replacing an earlier one with its id.
pub open spec fn skills_map(ss: Seq<SkillView>) -> Map<u32, SkillView>
    decreases ss.len(),
{
    if ss.len() == 0 {
        Map::empty()
    } else {
        skills_map(ss.drop_last()).insert(ss.last().id.0, ss.last())
    }
}

/// Upper-casing the animation names of each skill and then mapping the skills by id
/// is mapping them by id and then upper-casing.
pub proof fn lemma_skills_map_upper(ss: Seq<SkillView>)
    ensures
        skills_map(ss.map_values(|s: SkillView| upper_animations(s))) == skills_map(ss).map_values(
            |s: SkillView| upper_animations(s),
        ),
    decreases ss.len(),
{
    let us = ss.map_values(|s: SkillView| upper_animations(s));
    if ss.len() == 0 {
        assert(skills_map(ss).map_values(|s: SkillView| upper_animations(s)) =~= Map::empty());
    } else {
        let dl = ss.drop_last();
        lemma_skills_map_upper(dl);
        assert(us.drop_last() =~= dl.map_values(|s: SkillView| upper_animations(s)));
        assert(us.last() == upper_animations(ss.last()));
        assert(skills_map(us) =~= skills_map(ss).map_values(|s: SkillView| upper_animations(s)));
    }
}

/// Storing the runs of skills whose records each read back as the skill, with its
/// animation names upper-cased, stores those skills by id.
pub proof fn lemma_store_runs(
    ss: Seq<SkillView>,
    e: Seq<Seq<char>>,
    kk: Seq<Seq<char>>,
    nm: Map<u64, SkillNameDat>,
    d: Map<u32, Seq<char>>,
    sm: Map<u32, SkillSoundDat>,
    srm: Map<u32, SkillSoundSourceDat>,
)
    requires
        forall|i: int|
            0 <= i < ss.len() ==> {
                &&& level_record_count((#[trigger] skill_lay(ss[i], e, kk)).0) > 0
                &&& skill_lay(ss[i], e, kk).0.len() > 0
                &&& skill_lay(ss[i], e, kk).0[0].id as u32 == ss[i].id.0
                &&& skill_from(
                    skill_lay(ss[i], e, kk).0,
                    nm,
                    d,
                    sound_for(sm, ss[i].id.0),
                    source_for(srm, ss[i].id.0),
                    e,
                ) == upper_animations(ss[i])
            },
    ensures
        store_skills(Map::empty(), skills_runs(ss, e, kk), nm, d, sm, srm, e) == skills_map(
            ss.map_values(|s: SkillView| upper_animations(s)),
        ),
    decreases ss.len(),
{
    if ss.len() > 0 {
        let dl = ss.drop_last();
        assert forall|i: int| 0 <= i < dl.len() implies {
            &&& level_record_count((#[trigger] skill_lay(dl[i], e, kk)).0) > 0
            &&& skill_lay(dl[i], e, kk).0.len() > 0
            &&& skill_lay(dl[i], e, kk).0[0].id as u32 == dl[i].id.0
            &&& skill_from(
                skill_lay(dl[i], e, kk).0,
                nm,
                d,
                sound_for(sm, dl[i].id.0),
                source_for(srm, dl[i].id.0),
                e,
            ) == upper_animations(dl[i])
        } by {
            assert(dl[i] == ss[i]);
        }
        lemma_store_runs(dl, e, kk, nm, d, sm, srm);
        let us = ss.map_values(|s: SkillView| upper_animations(s));
        assert(us.drop_last() =~= dl.map_values(|s: SkillView| upper_animations(s)));
        assert(us.last() == upper_animations(ss.last()));
        let last = ss.len() - 1;
        assert(ss.last() == ss[last]);
        let runs = skills_runs(ss, e, kk);
        assert(runs.drop_last() =~= skills_runs(dl, e, kk));
        assert(runs.last() == skill_lay(ss[last], e, kk).0);
        assert(skill_lay(ss[last], e, kk).0.len() > 0);
    }
}

/// The record listed for each id is the last one with that id; where no other
/// record has its id, it is the record itself.
pub proof fn lemma_sounds_by_id_distinct(s: Seq<SkillSoundDat>, p: int)
    requires
        0 <= p < s.len(),
        forall|q: int| 0 <= q < s.len() && q != p ==> (#[trigger] s[q]).id != s[p].id,
    ensures
        sounds_by_id(s).contains_key(s[p].id),
        sounds_by_id(s)[s[p].id] == s[p],
    decreases s.len(),
{
    let d = s.drop_last();
    if p < s.len() - 1 {
        assert(d[p] == s[p]);
        assert forall|q: int| 0 <= q < d.len() && q != p implies (#[trigger] d[q]).id != d[p].id by {
            assert(d[q] == s[q]);
        }
        lemma_sounds_by_id_distinct(d, p);
        assert(s.last() == s[s.len() - 1]);
    }
}

/// The sound-source counterpart of `lemma_sounds_by_id_distinct`.
pub proof fn lemma_sources_by_id_distinct(s: Seq<SkillSoundSourceDat>, p: int)
    requires
        0 <= p < s.len(),
        forall|q: int| 0 <= q < s.len() && q != p ==> (#[trigger] s[q]).id != s[p].id,
    ensures
        sources_by_id(s).contains_key(s[p].id),
        sources_by_id(s)[s[p].id] == s[p],
    decreases s.len(),
{
    let d = s.drop_last();
    if p < s.len() - 1 {
        assert(d[p] == s[p]);
        assert forall|q: int| 0 <= q < d.len() && q != p implies (#[trigger] d[q]).id != d[p].id by {
            assert(d[q] == s[q]);
        }
        lemma_sources_by_id_distinct(d, p);
        assert(s.last() == s[s.len() - 1]);
    }
}

/// The texts of a name table whose records are numbered by position, by number.
pub proof fn lemma_texts_by_position(table: Seq<SkillNameTableRecord>, i: int)
    requires
        0 <= i < table.len(),
        forall|j: int| 0 <= j < table.len() ==> (#[trigger] table[j]).id == j,
    ensures
        texts_by_id(table).contains_key(i as u32),
        texts_by_id(table)[i as u32] == table[i].val@,
    decreases table.len(),
{
    let d = table.drop_last();
    if i < table.len() - 1 {
        assert forall|j: int| 0 <= j < d.len() implies (#[trigger] d[j]).id == j by {
            assert(d[j] == table[j]);
        }
        lemma_texts_by_position(d, i);
        assert(d[i] == table[i]);
        assert(table.last().id == table.len() - 1);
    } else {
        assert(table.last() == table[i]);
    }
}

/// The skills of `m` listed in the order of `ks`, by id, are the skills of `m` with
/// those ids, where each is stored under its own id.
pub proof fn lemma_skills_map(m: Map<u32, SkillView>, ks: Seq<u32>)
    requires
        forall|i: int| 0 <= i < ks.len() ==> m.contains_key(#[trigger] ks[i]),
        forall|k: u32| #[trigger] m.contains_key(k) ==> m[k].id == SkillId(k),
    ensures
        skills_map(skills_of(m, ks)) == m.restrict(ks.to_set()),
    decreases ks.len(),
{
    let ss = skills_of(m, ks);
    if ks.len() == 0 {
        assert(m.restrict(ks.to_set()) =~= Map::empty());
    } else {
        let d = ks.drop_last();
        let k = ks.last();
        assert forall|i: int| 0 <= i < d.len() implies m.contains_key(#[trigger] d[i]) by {
            assert(d[i] == ks[i]);
        }
        lemma_skills_map(m, d);
        assert(ss.drop_last() =~= skills_of(m, d));
        assert(ss.last() == m[k]);
        assert(m.contains_key(ks[ks.len() - 1]));
        assert(m[k].id.0 == k);
        assert(m.restrict(ks.to_set()) =~= m.restrict(d.to_set()).insert(k, m[k])) by {
            assert forall|x: u32| ks.to_set().contains(x) <==> d.to_set().contains(x) || x == k by {
                if ks.contains(x) && x != k {
                    let i = choose|i: int| 0 <= i < ks.len() && ks[i] == x;
                    assert(i < ks.len() - 1);
                    assert(d[i] == x);
                }
                if d.contains(x) {
                    let i = choose|i: int| 0 <= i < d.len() && d[i] == x;
                    assert(ks[i] == x);
                }
                if x == k {
                    assert(ks[ks.len() - 1] == x);
                }
            }
        }
    }
}

/// Saving the skills of `m`, in ascending order of id as the editor saves them, and
/// loading the files written gives back `m`, with the animation names upper-cased
/// as reading gives them: the records as saving writes them, read
/// through the maps that loading builds (the name records by key, the texts of the
/// skill name table by number, the sound records by skill id), where every skill is
/// stored under its own id, is among the ids read and is admitted by `skill_form`,
/// the texts of the general table are spelled alike with what the table holds
/// (`spelled_alike`), and the texts fit the 32-bit numbers of the records.
#[verifier::spinoff_prover]
pub proof fn law_skills_save_then_load(
    m: Map<u32, SkillView>,
    ks: Seq<u32>,
    gdn0: Seq<Seq<char>>,
    sounds: Seq<SkillSoundDat>,
    srcs: Seq<SkillSoundSourceDat>,
    table: Seq<SkillNameTableRecord>,
    ids: Set<u32>,
)
    requires
        lists_ascending(ks, m.dom()),
        forall|k: u32| #[trigger] m.contains_key(k) ==> m[k].id == SkillId(k) && skill_form(m[k]) && ids.contains(k),
        spelled_alike(gdn0, skills_gtexts(skills_of(m, ks))),
        gdn0.len() + skills_count(skills_of(m, ks)) < u32::MAX,
        sounds_match(sounds, srcs, skill_fold(initial_state(gdn0), skills_of(m, ks))),
        table.len() == skill_fold(initial_state(gdn0), skills_of(m, ks)).sk.len(),
        forall|j: int|
            0 <= j < table.len() ==> (#[trigger] table[j]).id == j && table[j].val@ == skill_fold(
                initial_state(gdn0),
                skills_of(m, ks),
            ).sk[j],
    ensures
        ks == ascending_order(m.dom()),
        ({
            let st = skill_fold(initial_state(gdn0), skills_of(m, ks));
            store_skills(
                Map::empty(),
                skill_runs(kept_records(st.grps, ids)),
                names_by_key(st.names),
                texts_by_id(table).insert(u32::MAX, "NOT EXIST"@),
                sounds_by_id(sounds),
                sources_by_id(srcs),
                st.gdn,
            ) == m.map_values(|s: SkillView| upper_animations(s))
        }),
{
    lemma_lists_ascending_unique(ks, ascending_order(m.dom()), m.dom());
    let ss = skills_of(m, ks);
    assert forall|i: int| 0 <= i < ks.len() implies m.contains_key(#[trigger] ks[i]) by {
        assert(ks.to_set().contains(ks[i]));
    }
    assert forall|i: int| 0 <= i < ss.len() implies #[trigger] ss[i] == m[ks[i]] && ss[i].id.0 == ks[i] && skill_form(ss[i])
        && ids.contains(ss[i].id.0) by {
        assert(m.contains_key(ks[i]));
    }
    let st0 = initial_state(gdn0);
    let st = skill_fold(st0, ss);
    let e = st.gdn;
    let kk = st.sk;
    let pool = skills_gtexts(ss);
    assert(within(pool, pool)) by {
        assert forall|j: int| 0 <= j < pool.len() implies pool.contains(#[trigger] pool[j]) && pool[j].len() > 0 by {}
    }
    assert forall|i: int| 0 <= i < ss.len() implies crate::skill_round_trip::sounds_round_trip((#[trigger] ss[i]).sound_info)
        && ss[i].skill_levels.len() > 0 by {
        assert(skill_form(ss[i]));
    }
    lemma_skills_written(st0, ss, e, kk, pool);
    lemma_gexact(e, gdn0, pool);
    let d = texts_by_id(table).insert(u32::MAX, "NOT EXIST"@);
    assert(dict_of(d, kk)) by {
        assert forall|i: u32| (i as int) < kk.len() implies #[trigger] d.contains_key(i) && d[i] == kk[i as int] by {
            lemma_texts_by_position(table, i as int);
            assert(table[i as int].id == i);
            assert(i != u32::MAX);
        }
    }
    // the name records by key
    let x = skills_lay(ss, e, kk);
    assert forall|i: int, j: int| 0 <= i < j < ss.len() implies (#[trigger] ss[i]).id.0 < (#[trigger] ss[j]).id.0 by {}
    lemma_skills_keyed(ss, e, kk);
    lemma_keyed_named(x.0, x.1);
    let nm = names_by_key(x.1);
    assert forall|i: int| 0 <= i < ss.len() implies (#[trigger] skill_lay(ss[i], e, kk)).0.len() == skill_lay(ss[i], e, kk).1.len() by {
        lemma_skill_keyed(ss[i], e, kk);
    }
    lemma_skills_named(ss, e, kk, nm);
    // each skill reads back
    assert forall|q: int| 0 <= q < sounds.len() implies (#[trigger] sounds[q]).id == ss[q].id.0 && srcs[q].id == ss[q].id.0 by {
        assert(is_sound_record(sounds[q], st.sound_skills[q], st.sound_gdn[q]));
        assert(is_source_record(srcs[q], st.sound_skills[q]));
        assert(st.sound_skills[q] == ss[q]);
    }
    assert forall|i: int| 0 <= i < ss.len() implies {
        &&& level_record_count((#[trigger] skill_lay(ss[i], e, kk)).0) > 0
        &&& skill_lay(ss[i], e, kk).0.len() > 0
        &&& skill_lay(ss[i], e, kk).0[0].id as u32 == ss[i].id.0
        &&& skill_from(
            skill_lay(ss[i], e, kk).0,
            nm,
            d,
            sound_for(sounds_by_id(sounds), ss[i].id.0),
            source_for(sources_by_id(srcs), ss[i].id.0),
            e,
        ) == upper_animations(ss[i])
        &&& forall|r: int| 0 <= r < skill_lay(ss[i], e, kk).0.len() ==> (#[trigger] skill_lay(ss[i], e, kk).0[r]).id == ss[i].id.0 as u16
    } by {
        assert(st.sound_skills[i] == ss[i]);
        assert(is_sound_record(sounds[i], st.sound_skills[i], st.sound_gdn[i]));
        assert(is_source_record(srcs[i], st.sound_skills[i]));
        assert(written_fits(ss[i], st.sound_gdn[0 + i], e, kk, pool));
        assert(named(skill_lay(ss[i], e, kk).0, skill_lay(ss[i], e, kk).1, nm));
        assert forall|q: int| 0 <= q < sounds.len() && q != i implies (#[trigger] sounds[q]).id != sounds[i].id by {
            assert(ss[q].id.0 == ks[q] && ss[i].id.0 == ks[i]);
            if q < i {
                assert(ks[q] < ks[i]);
            } else {
                assert(ks[i] < ks[q]);
            }
        }
        lemma_sounds_by_id_distinct(sounds, i);
        assert forall|q: int| 0 <= q < srcs.len() && q != i implies (#[trigger] srcs[q]).id != srcs[i].id by {
            assert(ss[q].id.0 == ks[q] && ss[i].id.0 == ks[i]);
            assert(srcs[q].id == ss[q].id.0 && srcs[i].id == ss[i].id.0) by {
                assert(sounds[q].id == ss[q].id.0);
                assert(sounds[i].id == ss[i].id.0);
            }
            if q < i {
                assert(ks[q] < ks[i]);
            } else {
                assert(ks[i] < ks[q]);
            }
        }
        lemma_sources_by_id_distinct(srcs, i);
        lemma_skill_read(ss[i], st.sound_gdn[i], e, kk, pool, d, sounds[i], srcs[i], nm);
        assert(skill_form(ss[i]));
    }
    // the runs, kept whole, store the skills by id
    assert(runs_shaped(ss, e, kk)) by {
        assert forall|i: int| 0 <= i < ss.len() implies (#[trigger] skill_lay(ss[i], e, kk)).0.len() > 0 && ss[i].id.0 <= 0xffff by {
            assert(skill_form(ss[i]));
        }
    }
    lemma_skills_runs(ss, e, kk, ids);
    lemma_all_listed_kept(x.0, ids);
    lemma_store_runs(ss, e, kk, nm, d, sounds_by_id(sounds), sources_by_id(srcs));
    lemma_skills_map(m, ks);
    lemma_skills_map_upper(ss);
    assert(m.restrict(ks.to_set()) =~= m);
    assert(st.grps =~= x.0);
    assert(st.names =~= x.1);
}

} // verus!
