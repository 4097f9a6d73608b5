//! Quests: the entity that the editor shows, the record of `questname-ru.dat`,
//! and the conversions between the two.
use vstd::prelude::*;
use crate::ids::{HuntingZoneId, ItemId, Location, NpcId, QuestId};
use crate::vec_util::{bool_code, copy_vec, reversed, to_u32_bool};
use vstd::string::StringExecFns;

verus! {

/// Steps whose level is above this are finish steps.
pub const FINISH_LEVEL: u32 = 1000;

/// One goal of a quest step: a target (npc or item, by the goal's kind), the kind's
/// code in the dat file, and how many are needed.
#[derive(Clone, Copy, Debug, PartialEq, Eq, Structural, Default)]
pub struct StepGoal {
    pub target_id: u32,
    pub goal_type: u32,
    pub count: u32,
}

/// A reward of a quest.
#[derive(Clone, Copy, Debug, PartialEq, Eq, Structural, Default)]
pub struct QuestReward {
    pub reward_id: ItemId,
    pub count: i64,
}

/// One step of a quest. `prev_steps` lists the steps that lead to this one.
#[derive(Clone, Debug, PartialEq)]
pub struct QuestStep {
    pub title: String,
    pub label: String,
    pub desc: String,
    pub goals: Vec<StepGoal>,
    pub location: Location,
    pub additional_locations: Vec<Location>,
    pub unk_q_level: Vec<u32>,
    pub _get_item_in_step: bool,
    pub unk_1: u32,
    pub unk_2: u32,
    pub prev_steps: Vec<u32>,
    pub level: u32,
}

/// The value of a quest step, with texts as character sequences.
pub struct QuestStepView {
    pub title: Seq<char>,
    pub label: Seq<char>,
    pub desc: Seq<char>,
    pub goals: Seq<StepGoal>,
    pub location: Location,
    pub additional_locations: Seq<Location>,
    pub unk_q_level: Seq<u32>,
    pub get_item_in_step: bool,
    pub unk_1: u32,
    pub unk_2: u32,
    pub prev_steps: Seq<u32>,
    pub level: u32,
}

/// The value of a new, empty step.
pub open spec fn empty_step() -> QuestStepView {
    QuestStepView {
        title: Seq::empty(),
        label: Seq::empty(),
        desc: Seq::empty(),
        goals: Seq::empty(),
        location: Location { x: 0, y: 0, z: 0 },
        additional_locations: Seq::empty(),
        unk_q_level: Seq::empty(),
        get_item_in_step: false,
        unk_1: 0,
        unk_2: 0,
        prev_steps: Seq::empty(),
        level: 0,
    }
}

impl Default for QuestStep {
    fn default() -> (r: Self)
        ensures
            r@ == empty_step(),
    {
        QuestStep {
            title: String::new(),
            label: String::new(),
            desc: String::new(),
            goals: Vec::new(),
            location: Location { x: 0, y: 0, z: 0 },
            additional_locations: Vec::new(),
            unk_q_level: Vec::new(),
            _get_item_in_step: false,
            unk_1: 0,
            unk_2: 0,
            prev_steps: Vec::new(),
            level: 0,
        }
    }
}

impl View for QuestStep {
    type V = QuestStepView;

    open spec fn view(&self) -> QuestStepView {
        QuestStepView {
            title: self.title@,
            label: self.label@,
            desc: self.desc@,
            goals: self.goals@,
            location: self.location,
            additional_locations: self.additional_locations@,
            unk_q_level: self.unk_q_level@,
            get_item_in_step: self._get_item_in_step,
            unk_1: self.unk_1,
            unk_2: self.unk_2,
            prev_steps: self.prev_steps@,
            level: self.level,
        }
    }
}

/// A quest of the game.
#[derive(Clone, Debug, PartialEq)]
pub struct Quest {
    pub id: QuestId,
    pub title: String,
    pub intro: String,
    pub requirements: String,
    pub steps: Vec<QuestStep>,
    pub last_finish_step_id: u32,
    pub quest_type: u32,
    pub category: u32,
    pub mark_type: u32,
    pub min_lvl: u32,
    pub max_lvl: u32,
    pub allowed_classes: Option<Vec<u8>>,
    pub required_completed_quest_id: QuestId,
    pub search_zone_id: HuntingZoneId,
    pub _is_clan_pet_quest: bool,
    pub start_npc_loc: Location,
    pub start_npc_ids: Vec<NpcId>,
    pub rewards: Vec<QuestReward>,
    pub quest_items: Vec<ItemId>,
    pub _faction_id: u32,
    pub _faction_level_min: u32,
    pub _faction_level_max: u32,
    /// Whether the steps have been laid out for the editor; a laid-out quest is not
    /// sorted again.
    pub steps_sorted: bool,
}

/// The value of a quest; the layout mark `steps_sorted` is not part of it.
pub struct QuestView {
    pub id: QuestId,
    pub title: Seq<char>,
    pub intro: Seq<char>,
    pub requirements: Seq<char>,
    pub steps: Seq<QuestStepView>,
    pub last_finish_step_id: u32,
    pub quest_type: u32,
    pub category: u32,
    pub mark_type: u32,
    pub min_lvl: u32,
    pub max_lvl: u32,
    pub allowed_classes: Option<Seq<u8>>,
    pub required_completed_quest_id: QuestId,
    pub search_zone_id: HuntingZoneId,
    pub is_clan_pet_quest: bool,
    pub start_npc_loc: Location,
    pub start_npc_ids: Seq<NpcId>,
    pub rewards: Seq<QuestReward>,
    pub quest_items: Seq<ItemId>,
    pub faction_id: u32,
    pub faction_level_min: u32,
    pub faction_level_max: u32,
}

pub open spec fn classes_view(c: Option<Vec<u8>>) -> Option<Seq<u8>> {
    match c {
        Some(v) => Some(v@),
        None => None,
    }
}

impl View for Quest {
    type V = QuestView;

    open spec fn view(&self) -> QuestView {
        QuestView {
            id: self.id,
            title: self.title@,
            intro: self.intro@,
            requirements: self.requirements@,
            steps: self.steps@.map_values(|s: QuestStep| s@),
            last_finish_step_id: self.last_finish_step_id,
            quest_type: self.quest_type,
            category: self.category,
            mark_type: self.mark_type,
            min_lvl: self.min_lvl,
            max_lvl: self.max_lvl,
            allowed_classes: classes_view(self.allowed_classes),
            required_completed_quest_id: self.required_completed_quest_id,
            search_zone_id: self.search_zone_id,
            is_clan_pet_quest: self._is_clan_pet_quest,
            start_npc_loc: self.start_npc_loc,
            start_npc_ids: self.start_npc_ids@,
            rewards: self.rewards@,
            quest_items: self.quest_items@,
            faction_id: self._faction_id,
            faction_level_min: self._faction_level_min,
            faction_level_max: self._faction_level_max,
        }
    }
}

/// One record of `questname-ru.dat`: one step of a quest, with the quest's own
/// fields repeated in every record. Coordinates are whole units here; the file
/// stores them as floats.
#[derive(Clone, Debug, PartialEq, Default)]
pub struct QuestNameDat {
    pub tag: u32,
    pub id: u32,
    pub level: u32,
    pub title: String,
    pub sub_name: String,
    pub desc: String,
    pub goal_ids: Vec<u32>,
    pub goal_types: Vec<u32>,
    pub goal_nums: Vec<u32>,
    pub target_loc: Location,
    pub additional_locations: Vec<Location>,
    pub q_levels: Vec<u32>,
    pub lvl_min: u32,
    pub lvl_max: u32,
    pub quest_type: u32,
    pub entity_name: String,
    pub get_item_in_quest: u32,
    pub unk_1: u32,
    pub unk_2: u32,
    pub start_npc_ids: Vec<u32>,
    pub start_npc_loc: Location,
    pub requirements: String,
    pub intro: String,
    pub class_limit: Vec<u32>,
    pub quest_items: Vec<u32>,
    pub clan_pet_quest: u32,
    pub cleared_quest: u32,
    pub mark_type: u32,
    pub search_zone_id: u32,
    pub category: u32,
    pub reward_ids: Vec<u32>,
    pub reward_nums: Vec<i64>,
    pub pre_level: Vec<u32>,
    pub faction_id: u32,
    pub faction_level_min: u32,
    pub faction_level_max: u32,
}

/// The value of a `questname-ru.dat` record.
pub struct QuestNameDatView {
    pub tag: u32,
    pub id: u32,
    pub level: u32,
    pub title: Seq<char>,
    pub sub_name: Seq<char>,
    pub desc: Seq<char>,
    pub goal_ids: Seq<u32>,
    pub goal_types: Seq<u32>,
    pub goal_nums: Seq<u32>,
    pub target_loc: Location,
    pub additional_locations: Seq<Location>,
    pub q_levels: Seq<u32>,
    pub lvl_min: u32,
    pub lvl_max: u32,
    pub quest_type: u32,
    pub entity_name: Seq<char>,
    pub get_item_in_quest: u32,
    pub unk_1: u32,
    pub unk_2: u32,
    pub start_npc_ids: Seq<u32>,
    pub start_npc_loc: Location,
    pub requirements: Seq<char>,
    pub intro: Seq<char>,
    pub class_limit: Seq<u32>,
    pub quest_items: Seq<u32>,
    pub clan_pet_quest: u32,
    pub cleared_quest: u32,
    pub mark_type: u32,
    pub search_zone_id: u32,
    pub category: u32,
    pub reward_ids: Seq<u32>,
    pub reward_nums: Seq<i64>,
    pub pre_level: Seq<u32>,
    pub faction_id: u32,
    pub faction_level_min: u32,
    pub faction_level_max: u32,
}

impl View for QuestNameDat {
    type V = QuestNameDatView;

    open spec fn view(&self) -> QuestNameDatView {
        QuestNameDatView {
            tag: self.tag,
            id: self.id,
            level: self.level,
            title: self.title@,
            sub_name: self.sub_name@,
            desc: self.desc@,
            goal_ids: self.goal_ids@,
            goal_types: self.goal_types@,
            goal_nums: self.goal_nums@,
            target_loc: self.target_loc,
            additional_locations: self.additional_locations@,
            q_levels: self.q_levels@,
            lvl_min: self.lvl_min,
            lvl_max: self.lvl_max,
            quest_type: self.quest_type,
            entity_name: self.entity_name@,
            get_item_in_quest: self.get_item_in_quest,
            unk_1: self.unk_1,
            unk_2: self.unk_2,
            start_npc_ids: self.start_npc_ids@,
            start_npc_loc: self.start_npc_loc,
            requirements: self.requirements@,
            intro: self.intro@,
            class_limit: self.class_limit@,
            quest_items: self.quest_items@,
            clan_pet_quest: self.clan_pet_quest,
            cleared_quest: self.cleared_quest,
            mark_type: self.mark_type,
            search_zone_id: self.search_zone_id,
            category: self.category,
            reward_ids: self.reward_ids@,
            reward_nums: self.reward_nums@,
            pre_level: self.pre_level@,
            faction_id: self.faction_id,
            faction_level_min: self.faction_level_min,
            faction_level_max: self.faction_level_max,
        }
    }
}

// ------------------------------------------------------------------------------------------
// Quest to records
// ------------------------------------------------------------------------------------------

/// The class codes that a quest's records list: none where the quest is open to all.
pub open spec fn class_codes(c: Option<Seq<u8>>) -> Seq<u32> {
    match c {
        Some(v) => v.map_values(|x: u8| x as u32),
        None => seq![],
    }
}

/// The record that `step` of quest `q` is written as.
pub open spec fn step_record(q: QuestView, s: QuestStepView) -> QuestNameDatView {
    QuestNameDatView {
        tag: 1,
        id: q.id.0,
        level: s.level,
        title: q.title,
        sub_name: if s.level < FINISH_LEVEL {
            s.title
        } else {
            seq![]
        },
        desc: s.desc,
        goal_ids: s.goals.map_values(|g: StepGoal| g.target_id),
        goal_types: s.goals.map_values(|g: StepGoal| g.goal_type),
        goal_nums: s.goals.map_values(|g: StepGoal| g.count),
        target_loc: s.location,
        additional_locations: s.additional_locations,
        q_levels: s.unk_q_level,
        lvl_min: q.min_lvl,
        lvl_max: q.max_lvl,
        quest_type: q.quest_type,
        entity_name: s.label,
        get_item_in_quest: bool_code(s.get_item_in_step),
        unk_1: s.unk_1,
        unk_2: s.unk_2,
        start_npc_ids: q.start_npc_ids.map_values(|n: NpcId| n.0),
        start_npc_loc: q.start_npc_loc,
        requirements: q.requirements,
        intro: q.intro,
        class_limit: class_codes(q.allowed_classes),
        quest_items: q.quest_items.map_values(|i: ItemId| i.0),
        clan_pet_quest: bool_code(q.is_clan_pet_quest),
        cleared_quest: q.required_completed_quest_id.0,
        mark_type: q.mark_type,
        search_zone_id: q.search_zone_id.0,
        category: q.category,
        reward_ids: q.rewards.map_values(|r: QuestReward| r.reward_id.0),
        reward_nums: q.rewards.map_values(|r: QuestReward| r.count),
        pre_level: s.prev_steps,
        faction_id: q.faction_id,
        faction_level_min: q.faction_level_min,
        faction_level_max: q.faction_level_max,
    }
}

/// The records that quest `q` is written as: one per step, in step order.
pub open spec fn quest_records(q: QuestView) -> Seq<QuestNameDatView> {
    q.steps.map_values(|s: QuestStepView| step_record(q, s))
}

fn goal_columns(goals: &Vec<StepGoal>) -> (r: (Vec<u32>, Vec<u32>, Vec<u32>))
    ensures
        r.0@ == goals@.map_values(|g: StepGoal| g.target_id),
        r.1@ == goals@.map_values(|g: StepGoal| g.goal_type),
        r.2@ == goals@.map_values(|g: StepGoal| g.count),
{
    let mut ids: Vec<u32> = Vec::new();
    let mut types: Vec<u32> = Vec::new();
    let mut nums: Vec<u32> = Vec::new();
    let n = goals.len();
    let mut i: usize = 0;
    while i < n
        invariant
            i <= n,
            n == goals@.len(),
            ids@ =~= goals@.subrange(0, i as int).map_values(|g: StepGoal| g.target_id),
            types@ =~= goals@.subrange(0, i as int).map_values(|g: StepGoal| g.goal_type),
            nums@ =~= goals@.subrange(0, i as int).map_values(|g: StepGoal| g.count),
        decreases n - i,
    {
        let g = goals[i];
        ids.push(g.target_id);
        types.push(g.goal_type);
        nums.push(g.count);
        i += 1;
    }
    proof {
        assert(goals@.subrange(0, n as int) =~= goals@);
    }
    (ids, types, nums)
}

fn npc_codes(ids: &Vec<NpcId>) -> (r: Vec<u32>)
    ensures
        r@ == ids@.map_values(|n: NpcId| n.0),
{
    let mut r: Vec<u32> = Vec::new();
    let n = ids.len();
    let mut i: usize = 0;
    while i < n
        invariant
            i <= n,
            n == ids@.len(),
            r@ =~= ids@.subrange(0, i as int).map_values(|n: NpcId| n.0),
        decreases n - i,
    {
        r.push(ids[i].0);
        i += 1;
    }
    proof {
        assert(ids@.subrange(0, n as int) =~= ids@);
    }
    r
}

fn item_codes(ids: &Vec<ItemId>) -> (r: Vec<u32>)
    ensures
        r@ == ids@.map_values(|n: ItemId| n.0),
{
    let mut r: Vec<u32> = Vec::new();
    let n = ids.len();
    let mut i: usize = 0;
    while i < n
        invariant
            i <= n,
            n == ids@.len(),
            r@ =~= ids@.subrange(0, i as int).map_values(|n: ItemId| n.0),
        decreases n - i,
    {
        r.push(ids[i].0);
        i += 1;
    }
    proof {
        assert(ids@.subrange(0, n as int) =~= ids@);
    }
    r
}

fn class_code_vec(c: &Option<Vec<u8>>) -> (r: Vec<u32>)
    ensures
        r@ == class_codes(classes_view(*c)),
{
    match c {
        Some(v) => {
            let mut r: Vec<u32> = Vec::new();
            let n = v.len();
            let mut i: usize = 0;
            while i < n
                invariant
                    i <= n,
                    n == v@.len(),
                    r@ =~= v@.subrange(0, i as int).map_values(|x: u8| x as u32),
                decreases n - i,
            {
                r.push(v[i] as u32);
                i += 1;
            }
            proof {
                assert(v@.subrange(0, n as int) =~= v@);
            }
            r
        },
        None => Vec::new(),
    }
}

fn reward_columns(rewards: &Vec<QuestReward>) -> (r: (Vec<u32>, Vec<i64>))
    ensures
        r.0@ == rewards@.map_values(|x: QuestReward| x.reward_id.0),
        r.1@ == rewards@.map_values(|x: QuestReward| x.count),
{
    let mut ids: Vec<u32> = Vec::new();
    let mut nums: Vec<i64> = Vec::new();
    let n = rewards.len();
    let mut i: usize = 0;
    while i < n
        invariant
            i <= n,
            n == rewards@.len(),
            ids@ =~= rewards@.subrange(0, i as int).map_values(|x: QuestReward| x.reward_id.0),
            nums@ =~= rewards@.subrange(0, i as int).map_values(|x: QuestReward| x.count),
        decreases n - i,
    {
        ids.push(rewards[i].reward_id.0);
        nums.push(rewards[i].count);
        i += 1;
    }
    proof {
        assert(rewards@.subrange(0, n as int) =~= rewards@);
    }
    (ids, nums)
}

impl QuestNameDat {
    /// The record that one step of `quest` is written as.
    pub fn from_step(quest: &Quest, step: &QuestStep) -> (r: Self)
        ensures
            r@ == step_record(quest@, step@),
    {
        let goals = goal_columns(&step.goals);
        let rewards = reward_columns(&quest.rewards);
        let sub_name = if step.level < FINISH_LEVEL {
            step.title.clone()
        } else {
            String::new()
        };
        let r = QuestNameDat {
            tag: 1,
            id: quest.id.0,
            level: step.level,
            title: quest.title.clone(),
            sub_name,
            desc: step.desc.clone(),
            goal_ids: goals.0,
            goal_types: goals.1,
            goal_nums: goals.2,
            target_loc: step.location,
            additional_locations: copy_vec(&step.additional_locations),
            q_levels: copy_vec(&step.unk_q_level),
            lvl_min: quest.min_lvl,
            lvl_max: quest.max_lvl,
            quest_type: quest.quest_type,
            entity_name: step.label.clone(),
            get_item_in_quest: to_u32_bool(step._get_item_in_step),
            unk_1: step.unk_1,
            unk_2: step.unk_2,
            start_npc_ids: npc_codes(&quest.start_npc_ids),
            start_npc_loc: quest.start_npc_loc,
            requirements: quest.requirements.clone(),
            intro: quest.intro.clone(),
            class_limit: class_code_vec(&quest.allowed_classes),
            quest_items: item_codes(&quest.quest_items),
            clan_pet_quest: to_u32_bool(quest._is_clan_pet_quest),
            cleared_quest: quest.required_completed_quest_id.0,
            mark_type: quest.mark_type,
            search_zone_id: quest.search_zone_id.0,
            category: quest.category,
            reward_ids: rewards.0,
            reward_nums: rewards.1,
            pre_level: copy_vec(&step.prev_steps),
            faction_id: quest._faction_id,
            faction_level_min: quest._faction_level_min,
            faction_level_max: quest._faction_level_max,
        };
        proof {
            assert(r@.sub_name == step_record(quest@, step@).sub_name);
        }
        r
    }

    /// The records that `quest` is written as: one per step, in step order.
    pub fn from_quest(quest: &Quest) -> (r: Vec<Self>)
        ensures
            r@.map_values(|d: QuestNameDat| d@) == quest_records(quest@),
    {
        let mut res: Vec<Self> = Vec::new();
        let n = quest.steps.len();
        let mut i: usize = 0;
        while i < n
            invariant
                i <= n,
                n == quest.steps@.len(),
                res@.len() == i,
                forall|j: int|
                    0 <= j < i ==> (#[trigger] res@[j])@ == step_record(quest@, quest.steps@[j]@),
            decreases n - i,
        {
            let d = Self::from_step(quest, &quest.steps[i]);
            res.push(d);
            i += 1;
        }
        proof {
            assert(res@.map_values(|d: QuestNameDat| d@) =~= quest_records(quest@));
        }
        res
    }
}

// ------------------------------------------------------------------------------------------
// Records to quest
// ------------------------------------------------------------------------------------------

/// The goals that a record lists, pairing its three goal columns by position.
pub open spec fn record_goals(v: QuestNameDatView) -> Seq<StepGoal> {
    Seq::new(
        v.goal_ids.len(),
        |i: int| StepGoal { target_id: v.goal_ids[i], goal_type: v.goal_types[i], count: v.goal_nums[i] },
    )
}

/// The step that a record describes. Finish steps are titled "FINISH".
pub open spec fn step_from_record(v: QuestNameDatView) -> QuestStepView {
    QuestStepView {
        title: if v.level > FINISH_LEVEL {
            "FINISH"@
        } else {
            v.sub_name
        },
        label: v.entity_name,
        desc: v.desc,
        goals: record_goals(v),
        location: v.target_loc,
        additional_locations: v.additional_locations,
        unk_q_level: v.q_levels,
        get_item_in_step: v.get_item_in_quest == 1,
        unk_1: v.unk_1,
        unk_2: v.unk_2,
        prev_steps: v.pre_level,
        level: v.level,
    }
}

/// The lowest level above `FINISH_LEVEL` among the records; `u32::MAX` where none is.
pub open spec fn finish_step_id(recs: Seq<QuestNameDatView>) -> u32
    decreases recs.len(),
{
    if recs.len() == 0 {
        u32::MAX
    } else {
        let prev = finish_step_id(recs.drop_last());
        let l = recs.last().level;
        if l > FINISH_LEVEL && l < prev {
            l
        } else {
            prev
        }
    }
}

/// The rewards that a record lists; a reward without a count gets 0.
pub open spec fn record_rewards(v: QuestNameDatView) -> Seq<QuestReward> {
    Seq::new(
        v.reward_ids.len(),
        |i: int|
            QuestReward {
                reward_id: ItemId(v.reward_ids[i]),
                count: if i < v.reward_nums.len() {
                    v.reward_nums[i]
                } else {
                    0
                },
            },
    )
}

/// The allowed classes that a record lists: none where the list is empty.
pub open spec fn record_classes(v: QuestNameDatView) -> Option<Seq<u8>> {
    if v.class_limit.len() == 0 {
        None
    } else {
        Some(v.class_limit.map_values(|c: u32| c as u8))
    }
}

/// Whether every record has as many goal kinds and counts as goal targets.
pub open spec fn records_well_formed(recs: Seq<QuestNameDatView>) -> bool {
    forall|i: int|
        0 <= i < recs.len() ==> (#[trigger] recs[i]).goal_types.len() >= recs[i].goal_ids.len()
            && recs[i].goal_nums.len() >= recs[i].goal_ids.len()
}

/// The quest that a run of records describes: the quest's own fields come from the
/// first record, the steps from all of them, in order.
pub open spec fn quest_from_records(recs: Seq<QuestNameDatView>) -> QuestView {
    let first = recs[0];
    QuestView {
        id: QuestId(first.id),
        title: first.title,
        intro: first.intro,
        requirements: first.requirements,
        steps: recs.map_values(|v: QuestNameDatView| step_from_record(v)),
        last_finish_step_id: finish_step_id(recs),
        quest_type: first.quest_type,
        category: first.category,
        mark_type: first.mark_type,
        min_lvl: first.lvl_min,
        max_lvl: first.lvl_max,
        allowed_classes: record_classes(first),
        required_completed_quest_id: QuestId(first.cleared_quest),
        search_zone_id: HuntingZoneId(first.search_zone_id),
        is_clan_pet_quest: first.clan_pet_quest == 1,
        start_npc_loc: first.start_npc_loc,
        start_npc_ids: first.start_npc_ids.map_values(|n: u32| NpcId(n)),
        rewards: record_rewards(first),
        quest_items: first.quest_items.map_values(|n: u32| ItemId(n)),
        faction_id: first.faction_id,
        faction_level_min: first.faction_level_min,
        faction_level_max: first.faction_level_max,
    }
}

fn goals_from_record(v: &QuestNameDat) -> (r: Vec<StepGoal>)
    requires
        v.goal_types@.len() >= v.goal_ids@.len(),
        v.goal_nums@.len() >= v.goal_ids@.len(),
    ensures
        r@ == record_goals(v@),
{
    let mut r: Vec<StepGoal> = Vec::new();
    let n = v.goal_ids.len();
    let mut i: usize = 0;
    while i < n
        invariant
            i <= n,
            n == v.goal_ids@.len(),
            v.goal_types@.len() >= n,
            v.goal_nums@.len() >= n,
            r@ =~= record_goals(v@).subrange(0, i as int),
        decreases n - i,
    {
        r.push(StepGoal { target_id: v.goal_ids[i], goal_type: v.goal_types[i], count: v.goal_nums[i] });
        i += 1;
    }
    proof {
        assert(record_goals(v@).subrange(0, n as int) =~= record_goals(v@));
    }
    r
}

fn rewards_from_record(v: &QuestNameDat) -> (r: Vec<QuestReward>)
    ensures
        r@ == record_rewards(v@),
{
    let mut r: Vec<QuestReward> = Vec::new();
    let n = v.reward_ids.len();
    let mut i: usize = 0;
    while i < n
        invariant
            i <= n,
            n == v.reward_ids@.len(),
            r@ =~= record_rewards(v@).subrange(0, i as int),
        decreases n - i,
    {
        let count = if i < v.reward_nums.len() {
            v.reward_nums[i]
        } else {
            0
        };
        r.push(QuestReward { reward_id: ItemId(v.reward_ids[i]), count });
        i += 1;
    }
    proof {
        assert(record_rewards(v@).subrange(0, n as int) =~= record_rewards(v@));
    }
    r
}

fn classes_from_record(v: &QuestNameDat) -> (r: Option<Vec<u8>>)
    ensures
        classes_view(r) == record_classes(v@),
{
    if v.class_limit.len() == 0 {
        None
    } else {
        let mut r: Vec<u8> = Vec::new();
        let n = v.class_limit.len();
        let mut i: usize = 0;
        while i < n
            invariant
                i <= n,
                n == v.class_limit@.len(),
                r@ =~= v.class_limit@.subrange(0, i as int).map_values(|c: u32| c as u8),
            decreases n - i,
        {
            r.push(v.class_limit[i] as u8);
            i += 1;
        }
        proof {
            assert(v.class_limit@.subrange(0, n as int) =~= v.class_limit@);
        }
        Some(r)
    }
}

fn npc_ids_from_codes(v: &Vec<u32>) -> (r: Vec<NpcId>)
    ensures
        r@ == v@.map_values(|n: u32| NpcId(n)),
{
    let mut r: Vec<NpcId> = Vec::new();
    let n = v.len();
    let mut i: usize = 0;
    while i < n
        invariant
            i <= n,
            n == v@.len(),
            r@ =~= v@.subrange(0, i as int).map_values(|n: u32| NpcId(n)),
        decreases n - i,
    {
        r.push(NpcId(v[i]));
        i += 1;
    }
    proof {
        assert(v@.subrange(0, n as int) =~= v@);
    }
    r
}

fn item_ids_from_codes(v: &Vec<u32>) -> (r: Vec<ItemId>)
    ensures
        r@ == v@.map_values(|n: u32| ItemId(n)),
{
    let mut r: Vec<ItemId> = Vec::new();
    let n = v.len();
    let mut i: usize = 0;
    while i < n
        invariant
            i <= n,
            n == v@.len(),
            r@ =~= v@.subrange(0, i as int).map_values(|n: u32| ItemId(n)),
        decreases n - i,
    {
        r.push(ItemId(v[i]));
        i += 1;
    }
    proof {
        assert(v@.subrange(0, n as int) =~= v@);
    }
    r
}

impl QuestStep {
    /// The step that a `questname-ru.dat` record describes.
    pub fn from_record(v: &QuestNameDat) -> (r: QuestStep)
        requires
            v.goal_types@.len() >= v.goal_ids@.len(),
            v.goal_nums@.len() >= v.goal_ids@.len(),
        ensures
            r@ == step_from_record(v@),
    {
        let title = if v.level > FINISH_LEVEL {
            proof {
                reveal_strlit("FINISH");
            }
            String::from_str("FINISH")
        } else {
            v.sub_name.clone()
        };
        QuestStep {
            title,
            label: v.entity_name.clone(),
            desc: v.desc.clone(),
            goals: goals_from_record(v),
            location: v.target_loc,
            additional_locations: copy_vec(&v.additional_locations),
            unk_q_level: copy_vec(&v.q_levels),
            _get_item_in_step: v.get_item_in_quest == 1,
            unk_1: v.unk_1,
            unk_2: v.unk_2,
            prev_steps: copy_vec(&v.pre_level),
            level: v.level,
        }
    }
}

impl Quest {
    /// The quest that a run of records describes; the run must not be empty.
    pub fn from_records(current_steps: &Vec<QuestNameDat>) -> (r: Quest)
        requires
            current_steps@.len() > 0,
            records_well_formed(current_steps@.map_values(|d: QuestNameDat| d@)),
        ensures
            r@ == quest_from_records(current_steps@.map_values(|d: QuestNameDat| d@)),
            !r.steps_sorted,
    {
        let ghost recs = current_steps@.map_values(|d: QuestNameDat| d@);
        let mut last_finish_id: u32 = u32::MAX;
        let mut steps: Vec<QuestStep> = Vec::new();
        let n = current_steps.len();
        let mut i: usize = 0;
        while i < n
            invariant
                i <= n,
                n == current_steps@.len(),
                recs == current_steps@.map_values(|d: QuestNameDat| d@),
                records_well_formed(recs),
                last_finish_id == finish_step_id(recs.subrange(0, i as int)),
                steps@.len() == i,
                forall|j: int| 0 <= j < i ==> (#[trigger] steps@[j])@ == step_from_record(recs[j]),
            decreases n - i,
        {
            let v = &current_steps[i];
            proof {
                assert(recs[i as int] == v@);
            }
            let step = QuestStep::from_record(v);
            if v.level > FINISH_LEVEL && v.level < last_finish_id {
                last_finish_id = v.level;
            }
            proof {
                assert(recs.subrange(0, i + 1).drop_last() =~= recs.subrange(0, i as int));
            }
            steps.push(step);
            i += 1;
        }
        proof {
            assert(recs.subrange(0, n as int) =~= recs);
        }
        let first = &current_steps[0];
        let r = Quest {
            id: QuestId(first.id),
            title: first.title.clone(),
            intro: first.intro.clone(),
            requirements: first.requirements.clone(),
            steps,
            last_finish_step_id: last_finish_id,
            quest_type: first.quest_type,
            category: first.category,
            mark_type: first.mark_type,
            min_lvl: first.lvl_min,
            max_lvl: first.lvl_max,
            allowed_classes: classes_from_record(first),
            required_completed_quest_id: QuestId(first.cleared_quest),
            search_zone_id: HuntingZoneId(first.search_zone_id),
            _is_clan_pet_quest: first.clan_pet_quest == 1,
            start_npc_loc: first.start_npc_loc,
            start_npc_ids: npc_ids_from_codes(&first.start_npc_ids),
            rewards: rewards_from_record(first),
            quest_items: item_ids_from_codes(&first.quest_items),
            _faction_id: first.faction_id,
            _faction_level_min: first.faction_level_min,
            _faction_level_max: first.faction_level_max,
            steps_sorted: false,
        };
        proof {
            assert(r@.steps =~= recs.map_values(|v: QuestNameDatView| step_from_record(v)));
            assert(recs[0] == first@);
        }
        r
    }
}

// ------------------------------------------------------------------------------------------
// Laws
// ------------------------------------------------------------------------------------------

/// Whether a step's title survives being written: finish steps are titled "FINISH",
/// a step of level exactly `FINISH_LEVEL` has an empty title.
pub open spec fn step_title_stored(s: QuestStepView) -> bool {
    &&& s.level > FINISH_LEVEL ==> s.title == "FINISH"@
    &&& s.level == FINISH_LEVEL ==> s.title == Seq::<char>::empty()
}

/// Whether a quest is read back from the records it is written as, all but its
/// finish step number: it has a step, its step titles survive, and it does not list
/// an empty set of allowed classes.
pub open spec fn quest_readable(q: QuestView) -> bool {
    &&& q.steps.len() > 0
    &&& forall|i: int| 0 <= i < q.steps.len() ==> step_title_stored(#[trigger] q.steps[i])
    &&& q.allowed_classes != Some(Seq::<u8>::empty())
}

/// Whether a quest is read back unchanged from the records it is written as: it is
/// `quest_readable` and its finish step number is the lowest finish level.
pub open spec fn quest_storable(q: QuestView) -> bool {
    &&& quest_readable(q)
    &&& q.last_finish_step_id == finish_step_id(quest_records(q))
}

proof fn lemma_step_round_trip(q: QuestView, s: QuestStepView)
    requires
        step_title_stored(s),
    ensures
        step_from_record(step_record(q, s)) == s,
{
    let v = step_record(q, s);
    assert(record_goals(v) =~= s.goals);
    let t = step_from_record(v);
    assert(t.title == s.title);
    assert(t.get_item_in_step == s.get_item_in_step);
}

/// Writing a quest as `questname-ru.dat` records and reading those records back
/// gives the same quest, but for its finish step number, which reading takes from
/// the lowest finish level of the steps; every quest that `quest_storable` admits
/// comes back unchanged.
pub proof fn law_quest_records_round_trip(q: QuestView)
    requires
        quest_readable(q),
    ensures
        records_well_formed(quest_records(q)),
        quest_from_records(quest_records(q)) == (QuestView {
            last_finish_step_id: finish_step_id(quest_records(q)),
            ..q
        }),
        quest_storable(q) ==> quest_from_records(quest_records(q)) == q,
{
    let recs = quest_records(q);
    assert forall|i: int| 0 <= i < recs.len() implies (#[trigger] recs[i]).goal_types.len()
        >= recs[i].goal_ids.len() && recs[i].goal_nums.len() >= recs[i].goal_ids.len() by {}
    let r = quest_from_records(recs);
    assert forall|i: int| 0 <= i < q.steps.len() implies #[trigger] r.steps[i] == q.steps[i] by {
        lemma_step_round_trip(q, q.steps[i]);
    }
    assert(r.steps =~= q.steps);
    assert(r.start_npc_ids =~= q.start_npc_ids);
    assert(r.quest_items =~= q.quest_items);
    assert(r.rewards =~= q.rewards);
    match q.allowed_classes {
        Some(c) => {
            assert(class_codes(q.allowed_classes).len() == c.len());
            if c.len() == 0 {
                assert(c =~= Seq::<u8>::empty());
            }
            assert(c.map_values(|x: u8| x as u32).map_values(|v: u32| v as u8) =~= c);
        },
        None => {},
    }
    assert(r.allowed_classes == q.allowed_classes);
    assert(r.is_clan_pet_quest == q.is_clan_pet_quest);
    assert(r == (QuestView { last_finish_step_id: finish_step_id(quest_records(q)), ..q }));
}

// ------------------------------------------------------------------------------------------
// Step connections
// ------------------------------------------------------------------------------------------

/// Position of the first element of `s` equal to `x`, or -1 where none is.
pub open spec fn find_first(s: Seq<u32>, x: u32) -> int
    decreases s.len(),
{
    if s.len() == 0 {
        -1
    } else if s[0] == x {
        0
    } else {
        let r = find_first(s.drop_first(), x);
        if r < 0 {
            -1
        } else {
            r + 1
        }
    }
}

/// `find_first` names the first position that holds `x`.
pub proof fn lemma_find_first(s: Seq<u32>, x: u32)
    ensures
        -1 <= find_first(s, x) < s.len(),
        find_first(s, x) >= 0 ==> s[find_first(s, x)] == x,
        forall|k: int| 0 <= k < s.len() && (find_first(s, x) < 0 || k < find_first(s, x)) ==> s[k] != x,
        find_first(s, x) < 0 <==> !s.contains(x),
    decreases s.len(),
{
    if s.len() > 0 && s[0] != x {
        let t = s.drop_first();
        lemma_find_first(t, x);
        assert forall|k: int| 0 <= k < t.len() implies t[k] == s[k + 1] by {}
        assert forall|k: int|
            0 <= k < s.len() && (find_first(s, x) < 0 || k < find_first(s, x)) implies s[k] != x by {
            if k > 0 {
                assert(s[k] == t[k - 1]);
            }
        }
        if s.contains(x) {
            let w = choose|w: int| 0 <= w < s.len() && s[w] == x;
            assert(t[w - 1] == x);
        }
        if t.contains(x) {
            let w = choose|w: int| 0 <= w < t.len() && t[w] == x;
            assert(s[w + 1] == x);
        }
    }
}

/// The step list after connecting `x`: unchanged where `x` is already there.
pub open spec fn connections_added(prev: Seq<u32>, x: u32) -> Seq<u32> {
    if prev.contains(x) {
        prev
    } else {
        prev.push(x)
    }
}

/// The step list after disconnecting `x`: its first occurrence is dropped.
pub open spec fn connections_removed(prev: Seq<u32>, x: u32) -> Seq<u32> {
    if find_first(prev, x) >= 0 {
        prev.remove(find_first(prev, x))
    } else {
        prev
    }
}

/// Whether two step values agree on everything but the incoming connections.
pub open spec fn same_but_connections(a: QuestStepView, b: QuestStepView) -> bool {
    a == QuestStepView { prev_steps: a.prev_steps, ..b }
}

impl QuestStep {
    /// Whether this step ends the quest.
    pub open spec fn spec_is_finish_step(&self) -> bool {
        self.level > FINISH_LEVEL
    }

    /// Whether this step ends the quest.
    pub fn is_finish_step(&self) -> (r: bool)
        ensures
            r == self.spec_is_finish_step(),
    {
        self.level > FINISH_LEVEL
    }

    /// Whether further steps can follow this one.
    pub fn is_not_finish(&self) -> (r: bool)
        ensures
            r == !self.spec_is_finish_step(),
    {
        !self.is_finish_step()
    }

    /// The steps that lead to this one.
    pub fn connected_to(&self) -> (r: Vec<u32>)
        ensures
            r@ == self.prev_steps@,
    {
        copy_vec(&self.prev_steps)
    }

    /// Connects step `connected_to` to this one, unless it is connected already.
    pub fn add_connection(&mut self, connected_to: u32)
        ensures
            final(self).prev_steps@ == connections_added(old(self).prev_steps@, connected_to),
            same_but_connections(final(self)@, old(self)@),
    {
        let mut found = false;
        let n = self.prev_steps.len();
        let mut i: usize = 0;
        while i < n
            invariant
                i <= n,
                n == self.prev_steps@.len(),
                found <==> exists|k: int| 0 <= k < i && self.prev_steps@[k] == connected_to,
            decreases n - i,
        {
            if self.prev_steps[i] == connected_to {
                found = true;
            }
            i += 1;
        }
        if !found {
            self.prev_steps.push(connected_to);
        }
    }

    /// Drops every incoming connection.
    pub fn remove_all_input_connection(&mut self)
        ensures
            final(self).prev_steps@ == Seq::<u32>::empty(),
            same_but_connections(final(self)@, old(self)@),
    {
        self.prev_steps.clear();
    }

    /// Drops the first incoming connection from step `index`, if there is one.
    pub fn remove_input_connection(&mut self, index: u32)
        ensures
            final(self).prev_steps@ == connections_removed(old(self).prev_steps@, index),
            same_but_connections(final(self)@, old(self)@),
    {
        proof {
            lemma_find_first(self.prev_steps@, index);
        }
        let n = self.prev_steps.len();
        let mut i: usize = 0;
        while i < n
            invariant
                i <= n,
                n == self.prev_steps@.len(),
                self@ == old(self)@,
                forall|k: int| 0 <= k < i ==> self.prev_steps@[k] != index,
            decreases n - i,
        {
            if self.prev_steps[i] == index {
                proof {
                    lemma_find_first(self.prev_steps@, index);
                    let f = find_first(self.prev_steps@, index);
                    assert(f >= 0);
                    assert(f <= i as int);
                    assert(f >= i as int);
                }
                self.prev_steps.remove(i);
                return;
            }
            i += 1;
        }
        proof {
            lemma_find_first(self.prev_steps@, index);
            assert(!self.prev_steps@.contains(index));
        }
    }
}

/// Connecting a step that is not yet connected, then disconnecting it, gives back
/// the connections that were there before.
pub proof fn law_connect_then_disconnect(prev: Seq<u32>, x: u32)
    requires
        !prev.contains(x),
    ensures
        connections_removed(connections_added(prev, x), x) == prev,
{
    let a = prev.push(x);
    lemma_find_first(a, x);
    lemma_find_first(prev, x);
    assert forall|k: int| 0 <= k < prev.len() implies a[k] != x by {
        assert(a[k] == prev[k]);
    }
    assert(a[prev.len() as int] == x);
    assert(find_first(a, x) == prev.len());
    assert(a.remove(prev.len() as int) =~= prev);
}

/// Connecting the same step twice connects it once.
pub proof fn law_connect_idempotent(prev: Seq<u32>, x: u32)
    ensures
        connections_added(connections_added(prev, x), x) == connections_added(prev, x),
{
    if !prev.contains(x) {
        assert(prev.push(x)[prev.len() as int] == x);
    }
}

/// Connecting steps never makes a step appear twice in a list that had no repeats.
pub proof fn law_connect_keeps_distinct(prev: Seq<u32>, x: u32)
    requires
        prev.no_duplicates(),
    ensures
        connections_added(prev, x).no_duplicates(),
{
    if !prev.contains(x) {
        let a = prev.push(x);
        assert forall|i: int, j: int| 0 <= i < a.len() && 0 <= j < a.len() && i != j implies a[i]
            != a[j] by {
            if i < prev.len() && j < prev.len() {
            } else if i == prev.len() {
                assert(prev[j] == a[j]);
            } else {
                assert(prev[i] == a[i]);
            }
        }
    }
}

/// The id and title of a quest, for lists.
pub struct QuestInfo {
    pub id: QuestId,
    pub name: String,
}

impl QuestInfo {
    /// The id and title of `value`.
    pub fn from(value: &Quest) -> (r: QuestInfo)
        ensures
            r.id == value.id,
            r.name@ == value.title@,
    {
        QuestInfo { id: value.id, name: value.title.clone() }
    }
}

/// The largest step number a step is connected from; 0 for a step without incoming
/// connections.
pub open spec fn max_prev(p: Seq<u32>) -> u32
    decreases p.len(),
{
    if p.len() == 0 {
        0
    } else {
        let m = max_prev(p.drop_last());
        if p.last() > m {
            p.last()
        } else {
            m
        }
    }
}

/// The key the editor lays steps out by.
pub open spec fn step_key(s: QuestStepView) -> u32 {
    max_prev(s.prev_steps)
}

/// Whether steps are in ascending order of their key.
pub open spec fn sorted_by_prev(s: Seq<QuestStepView>) -> bool {
    forall|i: int, j: int| 0 <= i < j < s.len() ==> step_key(s[i]) <= step_key(s[j])
}

/// The steps with key `k`, in order.
pub open spec fn with_key(s: Seq<QuestStepView>, k: u32) -> Seq<QuestStepView> {
    s.filter(|x: QuestStepView| step_key(x) == k)
}

fn max_prev_of(p: &Vec<u32>) -> (r: u32)
    ensures
        r == max_prev(p@),
{
    let mut m: u32 = 0;
    let mut i: usize = 0;
    while i < p.len()
        invariant
            i <= p@.len(),
            m == max_prev(p@.take(i as int)),
        decreases p@.len() - i,
    {
        proof {
            assert(p@.take(i + 1).drop_last() =~= p@.take(i as int));
            assert(p@.take(i + 1).last() == p@[i as int]);
        }
        if p[i] > m {
            m = p[i];
        }
        i += 1;
    }
    proof {
        assert(p@.take(p@.len() as int) =~= p@);
    }
    m
}

impl Quest {
    /// Lays out the steps for the editor, once: a quest not yet laid out gets its
    /// steps ordered by the largest step each is connected from (0 where none),
    /// steps with equal keys keeping their order, and is marked as laid out; a quest
    /// already laid out is left as it is.
    pub fn sort_steps(&mut self)
        ensures
            final(self).steps_sorted,
            old(self).steps_sorted ==> final(self)@ == old(self)@,
            !old(self).steps_sorted ==> sorted_by_prev(final(self)@.steps),
            !old(self).steps_sorted ==> forall|k: u32| with_key(final(self)@.steps, k) == with_key(old(self)@.steps, k),
            !old(self).steps_sorted ==> final(self)@ == (QuestView { steps: final(self)@.steps, ..old(self)@ }),
    {
        if self.steps_sorted {
            return;
        }
        broadcast use vstd::seq_lib::group_filter_ensures;

        let ghost orig = self.steps@.map_values(|q: QuestStep| q@);
        let mut steps: Vec<QuestStep> = Vec::new();
        std::mem::swap(&mut steps, &mut self.steps);
        let n = steps.len();
        let ghost owned = steps@;
        let mut rest = reversed(steps);
        let mut res: Vec<QuestStep> = Vec::new();
        let mut keys: Vec<u32> = Vec::new();
        let mut i: usize = 0;
        proof {
            assert(orig.take(0) =~= Seq::<QuestStepView>::empty());
            assert(res@.map_values(|q: QuestStep| q@) =~= Seq::<QuestStepView>::empty());
        }
        while rest.len() > 0
            invariant
                i + rest@.len() == n,
                owned.len() == n,
                orig == owned.map_values(|q: QuestStep| q@),
                rest@ == owned.subrange(i as int, n as int).reverse(),
                keys@.len() == res@.len(),
                forall|j: int| 0 <= j < res@.len() ==> keys@[j] == step_key(#[trigger] res@[j]@),
                sorted_by_prev(res@.map_values(|q: QuestStep| q@)),
                forall|k: u32| with_key(res@.map_values(|q: QuestStep| q@), k) == with_key(orig.take(i as int), k),
            decreases rest@.len(),
        {
            let x = rest.pop().unwrap();
            proof {
                assert(x == owned[i as int]);
                assert(rest@ =~= owned.subrange(i + 1, n as int).reverse());
            }
            let kx = max_prev_of(&x.prev_steps);
            let mut pos: usize = 0;
            while pos < keys.len() && keys[pos] <= kx
                invariant
                    pos <= keys@.len(),
                    forall|j: int| 0 <= j < pos ==> keys@[j] <= kx,
                decreases keys@.len() - pos,
            {
                pos += 1;
            }
            let ghost before = res@.map_values(|q: QuestStep| q@);
            let ghost rb = res@;
            let ghost kb = keys@;
            let ghost xv = x@;
            proof {
                assert forall|j: int| 0 <= j < before.len() implies step_key(#[trigger] before[j]) == kb[j] by {
                    assert(before[j] == rb[j]@);
                }
                assert forall|j: int| 0 <= j < pos implies step_key(#[trigger] before[j]) <= kx by {}
                if pos < before.len() {
                    assert(kb[pos as int] > kx);
                }
                assert forall|j: int| pos <= j < before.len() implies step_key(#[trigger] before[j]) > kx by {
                    assert(step_key(before[pos as int]) > kx);
                    assert(step_key(before[pos as int]) <= step_key(before[j]));
                }
            }
            res.insert(pos, x);
            keys.insert(pos, kx);
            proof {
                let after = res@.map_values(|q: QuestStep| q@);
                assert(res@ == rb.insert(pos as int, x));
                assert(keys@ == kb.insert(pos as int, kx));
                assert(after =~= before.insert(pos as int, xv));
                assert(sorted_by_prev(after)) by {
                    assert forall|a: int, b: int| 0 <= a < b < after.len() implies step_key(after[a]) <= step_key(after[b]) by {
                        if b < pos {
                            assert(after[a] == before[a] && after[b] == before[b]);
                        } else if b == pos {
                            assert(after[a] == before[a]);
                        } else if a < pos {
                            assert(after[a] == before[a] && after[b] == before[b - 1]);
                        } else if a == pos {
                            assert(after[b] == before[b - 1]);
                        } else {
                            assert(after[a] == before[a - 1] && after[b] == before[b - 1]);
                        }
                    }
                }
                assert(before.insert(pos as int, xv) =~= before.take(pos as int) + seq![xv] + before.skip(pos as int));
                assert(orig.take(i + 1) =~= orig.take(i as int).push(xv));
                assert forall|k: u32| with_key(after, k) == with_key(orig.take(i + 1), k) by {
                    let f = |y: QuestStepView| step_key(y) == k;
                    let lo = before.take(pos as int);
                    let hi = before.skip(pos as int);
                    assert(before =~= lo + hi);
                    assert(after =~= lo + seq![xv] + hi);
                    assert(orig.take(i + 1) =~= orig.take(i as int) + seq![xv]);
                    Seq::filter_distributes_over_add(lo, hi, f);
                    Seq::filter_distributes_over_add(lo + seq![xv], hi, f);
                    Seq::filter_distributes_over_add(lo, seq![xv], f);
                    Seq::filter_distributes_over_add(orig.take(i as int), seq![xv], f);
                    assert(with_key(before, k) == with_key(orig.take(i as int), k));
                    reveal(Seq::filter);
                    assert(seq![xv].filter(f) =~= if f(xv) { seq![xv] } else { Seq::<QuestStepView>::empty() }) by {
                        reveal_with_fuel(Seq::filter, 2);
                        assert(seq![xv].drop_last() =~= Seq::<QuestStepView>::empty());
                        assert(seq![xv].last() == xv);
                    }
                    if f(xv) {
                        if hi.filter(f).len() > 0 {
                            let y = hi.filter(f)[0];
                            hi.lemma_filter_pred(f, 0);
                            assert(hi.filter(f).contains(y));
                            hi.lemma_filter_contains_rev(f, y);
                            let w = choose|w: int| 0 <= w < hi.len() && hi[w] == y;
                            assert(hi[w] == before[pos + w]);
                            assert(step_key(before[pos + w]) > kx);
                        }
                        assert(hi.filter(f) =~= Seq::<QuestStepView>::empty());
                    }
                }
                assert forall|j: int| 0 <= j < res@.len() implies keys@[j] == step_key(#[trigger] res@[j]@) by {
                    if j < pos {
                        assert(res@[j] == rb[j] && keys@[j] == kb[j]);
                    } else if j == pos {
                    } else {
                        assert(res@[j] == rb[j - 1] && keys@[j] == kb[j - 1]);
                    }
                }
            }
            i += 1;
        }
        proof {
            assert(orig.take(n as int) =~= orig);
        }
        self.steps = res;
        self.steps_sorted = true;
        proof {
            assert(self@.steps == res@.map_values(|q: QuestStep| q@));
        }
    }
}

/// Each record written for a step of a quest carries the quest's own columns from
/// the same-named fields of the quest (id, title, intro, requirements, type,
/// category, mark, lowest and highest level, finished quest, search zone, start npc
/// place, faction and its levels) and the step's columns from the step (level,
/// description, label, place, extra places, levels, unknown numbers, previous steps).
pub proof fn law_step_record_columns(q: Quest, s: QuestStep, rec: QuestNameDat)
    requires
        rec@ == step_record(q@, s@),
    ensures
        rec.id == q.id.0,
        rec.title@ == q.title@,
        rec.intro@ == q.intro@,
        rec.requirements@ == q.requirements@,
        rec.quest_type == q.quest_type,
        rec.category == q.category,
        rec.mark_type == q.mark_type,
        rec.lvl_min == q.min_lvl,
        rec.lvl_max == q.max_lvl,
        rec.cleared_quest == q.required_completed_quest_id.0,
        rec.search_zone_id == q.search_zone_id.0,
        rec.start_npc_loc == q.start_npc_loc,
        rec.faction_id == q._faction_id,
        rec.faction_level_min == q._faction_level_min,
        rec.faction_level_max == q._faction_level_max,
        rec.clan_pet_quest == (if q._is_clan_pet_quest { 1u32 } else { 0u32 }),
        rec.level == s.level,
        rec.desc@ == s.desc@,
        rec.entity_name@ == s.label@,
        rec.target_loc == s.location,
        rec.additional_locations@ == s.additional_locations@,
        rec.q_levels@ == s.unk_q_level@,
        rec.unk_1 == s.unk_1,
        rec.unk_2 == s.unk_2,
        rec.pre_level@ == s.prev_steps@,
        rec.get_item_in_quest == (if s._get_item_in_step { 1u32 } else { 0u32 }),
        rec.tag == 1,
        s.level < FINISH_LEVEL ==> rec.sub_name@ == s.title@,
        rec.goal_ids@.len() == s.goals@.len(),
        rec.goal_types@.len() == s.goals@.len(),
        rec.goal_nums@.len() == s.goals@.len(),
        forall|i: int|
            0 <= i < s.goals@.len() ==> rec.goal_ids@[i] == (#[trigger] s.goals@[i]).target_id
                && rec.goal_types@[i] == s.goals@[i].goal_type && rec.goal_nums@[i] == s.goals@[i].count,
        rec.reward_ids@.len() == q.rewards@.len(),
        rec.reward_nums@.len() == q.rewards@.len(),
        forall|i: int|
            0 <= i < q.rewards@.len() ==> rec.reward_ids@[i] == (#[trigger] q.rewards@[i]).reward_id.0
                && rec.reward_nums@[i] == q.rewards@[i].count,
        rec.start_npc_ids@.len() == q.start_npc_ids@.len(),
        forall|i: int| 0 <= i < q.start_npc_ids@.len() ==> rec.start_npc_ids@[i] == (#[trigger] q.start_npc_ids@[i]).0,
        rec.quest_items@.len() == q.quest_items@.len(),
        forall|i: int| 0 <= i < q.quest_items@.len() ==> rec.quest_items@[i] == (#[trigger] q.quest_items@[i]).0,
{
}

/// Every record written for a quest (`QuestNameDat::from_quest`) carries the quest's
/// lowest and highest level, its id and its title, and the step at its position.
pub proof fn law_quest_records_columns(q: Quest, recs: Vec<QuestNameDat>)
    requires
        recs@.map_values(|d: QuestNameDat| d@) == quest_records(q@),
    ensures
        recs@.len() == q.steps@.len(),
        forall|i: int|
            0 <= i < recs@.len() ==> {
                &&& (#[trigger] recs@[i]).lvl_min == q.min_lvl
                &&& recs@[i].lvl_max == q.max_lvl
                &&& recs@[i].id == q.id.0
                &&& recs@[i].title@ == q.title@
                &&& recs@[i].level == q.steps@[i].level
                &&& recs@[i].desc@ == q.steps@[i].desc@
            },
{
    assert(recs@.map_values(|d: QuestNameDat| d@).len() == recs@.len());
    assert forall|i: int| 0 <= i < recs@.len() implies {
        &&& (#[trigger] recs@[i]).lvl_min == q.min_lvl
        &&& recs@[i].lvl_max == q.max_lvl
        &&& recs@[i].id == q.id.0
        &&& recs@[i].title@ == q.title@
        &&& recs@[i].level == q.steps@[i].level
        &&& recs@[i].desc@ == q.steps@[i].desc@
    } by {
        assert(recs@.map_values(|d: QuestNameDat| d@)[i] == recs@[i]@);
        assert(quest_records(q@)[i] == step_record(q@, q.steps@[i]@));
    }
}

/// The quest read from a run of records takes its own fields from the same-named
/// columns of the first record: id, title, intro, requirements, type, category,
/// mark, lowest level from `lvl_min`, highest level from `lvl_max`, finished quest,
/// search zone, start npc place and faction; it has a step for each record.
pub proof fn law_quest_from_records_columns(recs: Vec<QuestNameDat>, q: Quest)
    requires
        recs@.len() > 0,
        q@ == quest_from_records(recs@.map_values(|d: QuestNameDat| d@)),
    ensures
        q.id.0 == recs@[0].id,
        q.title@ == recs@[0].title@,
        q.intro@ == recs@[0].intro@,
        q.requirements@ == recs@[0].requirements@,
        q.quest_type == recs@[0].quest_type,
        q.category == recs@[0].category,
        q.mark_type == recs@[0].mark_type,
        q.min_lvl == recs@[0].lvl_min,
        q.max_lvl == recs@[0].lvl_max,
        q.required_completed_quest_id.0 == recs@[0].cleared_quest,
        q.search_zone_id.0 == recs@[0].search_zone_id,
        q.start_npc_loc == recs@[0].start_npc_loc,
        q._faction_id == recs@[0].faction_id,
        q._faction_level_min == recs@[0].faction_level_min,
        q._faction_level_max == recs@[0].faction_level_max,
        q._is_clan_pet_quest == (recs@[0].clan_pet_quest == 1),
        q.steps@.len() == recs@.len(),
        q.rewards@.len() == recs@[0].reward_ids@.len(),
        forall|i: int|
            0 <= i < q.rewards@.len() ==> (#[trigger] q.rewards@[i]).reward_id.0 == recs@[0].reward_ids@[i]
                && (i < recs@[0].reward_nums@.len() ==> q.rewards@[i].count == recs@[0].reward_nums@[i]),
        q.start_npc_ids@.len() == recs@[0].start_npc_ids@.len(),
        forall|i: int| 0 <= i < q.start_npc_ids@.len() ==> (#[trigger] q.start_npc_ids@[i]).0 == recs@[0].start_npc_ids@[i],
        q.quest_items@.len() == recs@[0].quest_items@.len(),
        forall|i: int| 0 <= i < q.quest_items@.len() ==> (#[trigger] q.quest_items@[i]).0 == recs@[0].quest_items@[i],
        forall|i: int| 0 <= i < q.steps@.len() ==> (#[trigger] q.steps@[i]).level == recs@[i].level,
{
    assert(recs@.map_values(|d: QuestNameDat| d@)[0] == recs@[0]@);
    assert(q@.steps.len() == q.steps@.len());
    assert forall|i: int| 0 <= i < q.steps@.len() implies (#[trigger] q.steps@[i]).level == recs@[i].level by {
        assert(q@.steps[i] == q.steps@[i]@);
        assert(recs@.map_values(|d: QuestNameDat| d@)[i] == recs@[i]@);
    }
}

/// The step read from a record takes its level, description, label, place, extra
/// places, levels, unknown numbers and previous steps from the same-named columns.
pub proof fn law_step_from_record_columns(v: QuestNameDat, s: QuestStep)
    requires
        s@ == step_from_record(v@),
    ensures
        s.level == v.level,
        s.desc@ == v.desc@,
        s.label@ == v.entity_name@,
        s.location == v.target_loc,
        s.additional_locations@ == v.additional_locations@,
        s.unk_q_level@ == v.q_levels@,
        s.unk_1 == v.unk_1,
        s.unk_2 == v.unk_2,
        s.prev_steps@ == v.pre_level@,
        s._get_item_in_step == (v.get_item_in_quest == 1),
        v.level <= FINISH_LEVEL ==> s.title@ == v.sub_name@,
        v.level > FINISH_LEVEL ==> s.title@ == "FINISH"@,
        s.goals@.len() == v.goal_ids@.len(),
        forall|i: int|
            0 <= i < s.goals@.len() ==> (#[trigger] s.goals@[i]).target_id == v.goal_ids@[i]
                && s.goals@[i].goal_type == v.goal_types@[i] && s.goals@[i].count == v.goal_nums@[i],
{
}

} // verus!
