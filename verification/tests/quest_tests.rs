use la2world_editor::ids::{HuntingZoneId, ItemId, Location, NpcId, QuestId};
use la2world_editor::loader::Loader110;
use la2world_editor::quest::{Quest, QuestInfo, QuestNameDat, QuestReward, QuestStep, StepGoal};

fn step(title: &str, level: u32, prev: Vec<u32>) -> QuestStep {
    QuestStep {
        title: title.to_string(),
        label: format!("{title} label"),
        desc: format!("{title} desc"),
        goals: vec![StepGoal { target_id: 20100, goal_type: 1, count: 5 }],
        location: Location { x: 10, y: -20, z: 30 },
        additional_locations: vec![Location { x: 1, y: 2, z: 3 }],
        unk_q_level: vec![4],
        _get_item_in_step: true,
        unk_1: 1,
        unk_2: 0,
        prev_steps: prev,
        level,
    }
}

fn sample_quest() -> Quest {
    Quest {
        id: QuestId(255),
        title: "Tutorial".to_string(),
        intro: "Welcome".to_string(),
        requirements: "Level 1".to_string(),
        steps: vec![step("Talk", 1, vec![]), step("Hunt", 2, vec![0]), step("FINISH", 1001, vec![1])],
        last_finish_step_id: 1001,
        quest_type: 2,
        category: 3,
        mark_type: 1,
        min_lvl: 1,
        max_lvl: 20,
        allowed_classes: Some(vec![0, 10]),
        required_completed_quest_id: QuestId(0),
        search_zone_id: HuntingZoneId(7),
        _is_clan_pet_quest: false,
        start_npc_loc: Location { x: -5, y: 6, z: -7 },
        start_npc_ids: vec![NpcId(30001)],
        rewards: vec![QuestReward { reward_id: ItemId(57), count: 1000 }],
        quest_items: vec![ItemId(1)],
        _faction_id: 0,
        _faction_level_min: 0,
        _faction_level_max: 0,
        steps_sorted: false,
    }
}

#[test]
fn quest_is_written_as_one_record_per_step() {
    let q = sample_quest();
    let recs = QuestNameDat::from_quest(&q);
    assert_eq!(recs.len(), 3);
    assert_eq!(recs[0].tag, 1);
    assert_eq!(recs[1].id, 255);
    assert_eq!(recs[1].sub_name, "Hunt");
    assert_eq!(recs[2].sub_name, "");
    assert_eq!(recs[1].pre_level, vec![0]);
    assert_eq!(recs[0].class_limit, vec![0, 10]);
    assert_eq!(recs[0].reward_nums, vec![1000]);
    assert_eq!(recs[0].get_item_in_quest, 1);
    assert_eq!(recs[0].goal_ids, vec![20100]);
}

#[test]
fn quest_survives_write_and_read() {
    let q = sample_quest();
    let recs = QuestNameDat::from_quest(&q);
    let back = Quest::from_records(&recs);
    assert_eq!(back, q);
}

#[test]
fn record_without_reward_count_reads_zero() {
    let mut r = QuestNameDat::default();
    r.id = 3;
    r.reward_ids = vec![57, 58];
    r.reward_nums = vec![9];
    let q = Quest::from_records(&vec![r]);
    assert_eq!(q.rewards, vec![QuestReward { reward_id: ItemId(57), count: 9 }, QuestReward { reward_id: ItemId(58), count: 0 }]);
    assert_eq!(q.allowed_classes, None);
    assert_eq!(q.last_finish_step_id, u32::MAX);
}

#[test]
fn finish_records_read_as_finish_steps() {
    let mut a = QuestNameDat::default();
    a.id = 4;
    a.level = 1500;
    a.sub_name = "ignored".to_string();
    let mut b = QuestNameDat::default();
    b.id = 4;
    b.level = 1200;
    let q = Quest::from_records(&vec![a, b]);
    assert_eq!(q.steps[0].title, "FINISH");
    assert!(q.steps[0].is_finish_step());
    assert!(!q.steps[0].is_not_finish());
    assert_eq!(q.last_finish_step_id, 1200);
}

#[test]
fn step_connections_are_kept_once() {
    let mut s = step("a", 1, vec![2]);
    s.add_connection(5);
    s.add_connection(5);
    assert_eq!(s.connected_to(), vec![2, 5]);
    s.remove_input_connection(2);
    assert_eq!(s.connected_to(), vec![5]);
    s.remove_input_connection(9);
    assert_eq!(s.connected_to(), vec![5]);
    s.remove_all_input_connection();
    assert!(s.connected_to().is_empty());
}

#[test]
fn connect_then_disconnect_restores_connections() {
    let mut s = step("a", 1, vec![3, 1]);
    s.add_connection(4);
    s.remove_input_connection(4);
    assert_eq!(s.prev_steps, vec![3, 1]);
}

#[test]
fn quest_info_uses_the_title() {
    let q = sample_quest();
    let i = QuestInfo::from(&q);
    assert_eq!(i.id, QuestId(255));
    assert_eq!(i.name, "Tutorial");
}

fn rec(id: u32, level: u32) -> QuestNameDat {
    let mut r = QuestNameDat::default();
    r.id = id;
    r.level = level;
    r.title = format!("quest {id}");
    r
}

#[test]
fn loading_groups_consecutive_records_by_quest() {
    let mut l = Loader110::new();
    let order = l.load_quests(vec![rec(5, 1), rec(5, 2), rec(3, 1), rec(5, 9)]);
    assert_eq!(order, vec![5, 3, 5]);
    let h = l.to_holder();
    assert_eq!(h.quest_holder.len(), 2);
    // the later run of quest 5 replaces the earlier one
    assert_eq!(h.quest_holder.get(&5).unwrap().steps.len(), 1);
    assert_eq!(h.quest_holder.get(&5).unwrap().steps[0].level, 9);
    assert_eq!(h.quest_holder.get(&3).unwrap().title, "quest 3");
}

#[test]
fn loading_no_records_gives_no_quests() {
    let mut l = Loader110::new();
    assert!(l.load_quests(vec![]).is_empty());
    assert_eq!(l.to_holder().quest_holder.len(), 0);
}

#[test]
fn saved_quest_records_are_in_id_order() {
    let mut l = Loader110::new();
    l.load_quests(vec![rec(9, 1), rec(2, 1), rec(2, 2), rec(7, 1)]);
    let recs = l.quest_binaries();
    let ids: Vec<u32> = recs.iter().map(|r| r.id).collect();
    assert_eq!(ids, vec![2, 2, 7, 9]);
    assert_eq!(recs[1].level, 2);
}

#[test]
fn steps_are_sorted_by_their_latest_connection_keeping_ties_in_order() {
    let mut q = sample_quest();
    q.steps = vec![
        step("c", 1, vec![4, 2]),
        step("a", 2, vec![]),
        step("d", 3, vec![7]),
        step("b", 4, vec![0]),
        step("e", 5, vec![1, 4]),
    ];
    q.sort_steps();
    let titles: Vec<&str> = q.steps.iter().map(|s| s.title.as_str()).collect();
    assert_eq!(titles, vec!["a", "b", "c", "e", "d"]);
    assert_eq!(q.title, "Tutorial");
    assert!(q.steps_sorted);
}

#[test]
fn laid_out_steps_are_not_sorted_again() {
    let mut q = sample_quest();
    q.steps = vec![step("b", 1, vec![3]), step("a", 2, vec![])];
    q.sort_steps();
    let titles: Vec<&str> = q.steps.iter().map(|s| s.title.as_str()).collect();
    assert_eq!(titles, vec!["a", "b"]);
    q.steps.push(step("c", 3, vec![]));
    q.sort_steps();
    let titles: Vec<&str> = q.steps.iter().map(|s| s.title.as_str()).collect();
    assert_eq!(titles, vec!["a", "b", "c"]);
}
