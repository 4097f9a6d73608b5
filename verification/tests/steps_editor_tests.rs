use la2world_editor::quest::QuestStep;
use la2world_editor::steps_editor::{NodeAction, NodeEditorConnectionState, StepsEditorState};

fn nodes(n: usize) -> Vec<QuestStep> {
    (0..n).map(|_| QuestStep::default()).collect()
}

#[test]
fn default_state_is_idle() {
    assert_eq!(NodeEditorConnectionState::default(), NodeEditorConnectionState::Idle);
    let e = StepsEditorState::new();
    assert!(!e.is_connecting());
    assert_eq!(e.action(), NodeAction::Idle);
}

#[test]
fn stack_follows_the_number_of_steps() {
    let mut e = StepsEditorState::new();
    e.select_all(2);
    e.sync_stack(3);
    assert_eq!(e.stack(), vec![0, 1, 2]);
    assert!(e.selected_nodes().is_empty());
    e.select_all(3);
    e.sync_stack(3);
    assert_eq!(e.selected_nodes(), vec![0, 1, 2]);
}

#[test]
fn output_then_input_connects_steps() {
    let mut e = StepsEditorState::new();
    let mut n = nodes(3);
    e.output_clicked(0);
    assert_eq!(*e.state(), NodeEditorConnectionState::CreatingFrom(0));
    e.input_clicked(2, &mut n);
    assert_eq!(*e.state(), NodeEditorConnectionState::Idle);
    assert_eq!(n[2].prev_steps, vec![0]);
    // connecting again adds nothing
    e.output_clicked(0);
    e.input_clicked(2, &mut n);
    assert_eq!(n[2].prev_steps, vec![0]);
}

#[test]
fn input_then_output_connects_on_the_next_frame() {
    let mut e = StepsEditorState::new();
    let mut n = nodes(3);
    e.input_clicked(2, &mut n);
    assert_eq!(*e.state(), NodeEditorConnectionState::CreatingTo(2));
    e.output_clicked(1);
    assert_eq!(*e.state(), NodeEditorConnectionState::CreateFrom { from: 1, to: 2 });
    assert!(n[2].prev_steps.is_empty());
    e.apply_connection_state(&mut n);
    assert_eq!(n[2].prev_steps, vec![1]);
    assert_eq!(*e.state(), NodeEditorConnectionState::Idle);
}

#[test]
fn clicking_the_same_step_cancels() {
    let mut e = StepsEditorState::new();
    let mut n = nodes(2);
    e.output_clicked(1);
    e.input_clicked(1, &mut n);
    assert!(n[1].prev_steps.is_empty());
    assert_eq!(*e.state(), NodeEditorConnectionState::Idle);
    e.input_clicked(0, &mut n);
    e.output_clicked(0);
    assert_eq!(*e.state(), NodeEditorConnectionState::Idle);
    e.output_dragged(1);
    assert!(e.is_connecting());
    e.cancel_connection();
    assert!(!e.is_connecting());
}

#[test]
fn removing_connections_of_a_step() {
    let mut e = StepsEditorState::new();
    let mut n = nodes(3);
    n[1].prev_steps = vec![0, 2];
    n[2].prev_steps = vec![0];
    e.output_secondary_clicked(0);
    assert_eq!(*e.state(), NodeEditorConnectionState::RemoveConnectionsTo(0));
    e.apply_connection_state(&mut n);
    assert_eq!(n[1].prev_steps, vec![2]);
    assert!(n[2].prev_steps.is_empty());
    // the state stays until it is changed
    assert_eq!(*e.state(), NodeEditorConnectionState::RemoveConnectionsTo(0));
    e.input_secondary_clicked(1, &mut n);
    assert!(n[1].prev_steps.is_empty());
}

#[test]
fn removing_crossed_connections() {
    let mut e = StepsEditorState::new();
    let mut n = nodes(3);
    n[1].prev_steps = vec![0];
    n[2].prev_steps = vec![1, 0];
    e.disconnect(vec![]);
    assert_eq!(*e.state(), NodeEditorConnectionState::Idle);
    e.disconnect(vec![(2, 0), (1, 0)]);
    e.apply_connection_state(&mut n);
    assert!(n[1].prev_steps.is_empty());
    assert_eq!(n[2].prev_steps, vec![1]);
}

#[test]
fn clicking_steps_changes_the_selection() {
    let mut e = StepsEditorState::new();
    e.sync_stack(4);
    e.node_clicked(2, 2, false, false);
    assert_eq!(e.selected_nodes(), vec![2]);
    assert_eq!(e.action(), NodeAction::MoveToStackTop(2));
    e.node_clicked(0, 0, false, true);
    assert_eq!(e.selected_nodes(), vec![2, 0]);
    e.node_clicked(0, 0, false, true);
    assert_eq!(e.selected_nodes(), vec![0]);
    e.node_clicked(1, 1, false, true);
    e.node_clicked(1, 1, true, false);
    assert_eq!(e.selected_nodes(), vec![0]);
    e.node_dragged(3, true);
    assert_eq!(e.selected_nodes(), vec![0, 3]);
    e.node_dragged(3, false);
    assert_eq!(e.selected_nodes(), vec![0, 3]);
    e.node_dragged(1, false);
    assert_eq!(e.selected_nodes(), vec![1]);
    assert!(e.is_selected(1));
    e.clear_selection();
    assert!(e.selected_nodes().is_empty());
}

#[test]
fn box_selection() {
    let mut e = StepsEditorState::new();
    e.node_dragged(5, false);
    e.box_select(&vec![1, 2], false, false);
    assert_eq!(e.selected_nodes(), vec![1, 2]);
    e.box_select(&vec![2, 3], false, true);
    assert_eq!(e.selected_nodes(), vec![1, 2, 3]);
    e.box_select(&vec![1, 3], true, false);
    assert_eq!(e.selected_nodes(), vec![2]);
}

#[test]
fn moving_a_step_to_the_top() {
    let mut e = StepsEditorState::new();
    let mut n = nodes(3);
    e.sync_stack(3);
    e.node_clicked(0, 0, false, false);
    assert_eq!(e.handle_node_action(&mut n), None);
    assert_eq!(e.stack(), vec![1, 2, 0]);
    assert_eq!(e.action(), NodeAction::Idle);
}

#[test]
fn deleting_steps_renumbers_the_stack() {
    let mut e = StepsEditorState::new();
    let mut n = nodes(4);
    e.sync_stack(4);
    // stack becomes [0, 2, 3, 1]
    e.node_clicked(1, 1, false, false);
    e.handle_node_action(&mut n);
    assert_eq!(e.stack(), vec![0, 2, 3, 1]);
    e.clear_selection();
    e.node_dragged(2, true);
    e.node_dragged(0, true);
    e.request_delete();
    let removed = e.handle_node_action(&mut n);
    assert_eq!(removed, Some(vec![0, 2]));
    assert_eq!(e.stack(), vec![1, 0]);
    assert!(e.selected_nodes().is_empty());
    assert_eq!(n.len(), 4);
}

#[test]
fn adding_a_step_puts_it_on_top() {
    let mut e = StepsEditorState::new();
    let mut n = nodes(2);
    e.sync_stack(2);
    e.request_add();
    assert_eq!(e.handle_node_action(&mut n), None);
    assert_eq!(n.len(), 3);
    assert_eq!(n[2], QuestStep::default());
    assert_eq!(e.stack(), vec![0, 1, 2]);
}
