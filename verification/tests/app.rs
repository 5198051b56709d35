use gitat::app::{
    commit_action, commit_at_row, commit_detail_action, conflict_action, edit_text, help_action, list_len, normal_action, search_action,
    select_down, select_up, uncommitted_detail_action, Action, Key, Panel, Tab,
};

#[test]
fn test_tab_cycling() {
    assert_eq!(Tab::Log.next(), Tab::Branches);
    assert_eq!(Tab::Stash.next(), Tab::Log);
    assert_eq!(Tab::Log.prev(), Tab::Stash);
    assert_eq!(Tab::Branches.prev(), Tab::Log);
}

#[test]
fn tab_titles() {
    assert_eq!(Tab::Log.title(), "Log");
    assert_eq!(Tab::Branches.title(), "Branches");
    assert_eq!(Tab::Stash.title(), "Stash");
}

#[test]
fn tabs_cycle_in_three_moves() {
    for t in [Tab::Log, Tab::Branches, Tab::Stash] {
        assert_eq!(t.next().prev(), t);
        assert_eq!(t.next().next().next(), t);
    }
}

#[test]
fn normal_q_quits() {
    assert_eq!(normal_action(Tab::Log, Panel::Left, None, Key::Char('q')), Action::Quit);
}

#[test]
fn normal_tab_keys_switch_tabs() {
    assert_eq!(normal_action(Tab::Log, Panel::Left, None, Key::Tab), Action::NextTab);
    assert_eq!(normal_action(Tab::Log, Panel::Left, None, Key::BackTab), Action::PrevTab);
}

#[test]
fn normal_h_and_l_focus_panels() {
    assert_eq!(normal_action(Tab::Log, Panel::Left, None, Key::Char('l')), Action::Focus(Panel::Right));
    assert_eq!(normal_action(Tab::Log, Panel::Right, None, Key::Char('h')), Action::Focus(Panel::Left));
}

#[test]
fn normal_c_starts_a_commit() {
    assert_eq!(normal_action(Tab::Branches, Panel::Left, None, Key::Char('c')), Action::StartCommit);
}

#[test]
fn diff_keys_act_only_on_the_right_panel() {
    assert_eq!(normal_action(Tab::Log, Panel::Right, None, Key::Char('n')), Action::NextHunk);
    assert_eq!(normal_action(Tab::Log, Panel::Right, None, Key::Char('N')), Action::PrevHunk);
    assert_eq!(normal_action(Tab::Log, Panel::Right, None, Key::Char('J')), Action::ScrollDown(1));
    assert_eq!(normal_action(Tab::Log, Panel::Right, None, Key::Char('K')), Action::ScrollUp(1));
    assert_eq!(normal_action(Tab::Log, Panel::Right, None, Key::Char('H')), Action::ScrollLeft(4));
    assert_eq!(normal_action(Tab::Log, Panel::Right, None, Key::Char('L')), Action::ScrollRight(4));
    assert_eq!(normal_action(Tab::Log, Panel::Left, None, Key::Char('n')), Action::Nothing);
    assert_eq!(normal_action(Tab::Log, Panel::Left, None, Key::Char('L')), Action::Nothing);
}

#[test]
fn enter_on_the_log_opens_the_selected_entry() {
    assert_eq!(normal_action(Tab::Log, Panel::Left, Some(0), Key::Enter), Action::OpenUncommitted);
    assert_eq!(normal_action(Tab::Log, Panel::Left, Some(1), Key::Enter), Action::OpenCommit);
    assert_eq!(normal_action(Tab::Log, Panel::Left, None, Key::Enter), Action::Nothing);
    assert_eq!(normal_action(Tab::Branches, Panel::Left, Some(1), Key::Enter), Action::LoadDiff);
}

#[test]
fn delete_only_on_the_branches_tab() {
    assert_eq!(normal_action(Tab::Branches, Panel::Left, None, Key::Char('d')), Action::DeleteBranch);
    assert_eq!(normal_action(Tab::Log, Panel::Left, None, Key::Char('d')), Action::Nothing);
}

#[test]
fn other_normal_keys() {
    let a = |k| normal_action(Tab::Log, Panel::Left, None, k);
    assert_eq!(a(Key::Char('j')), Action::SelectNext);
    assert_eq!(a(Key::Down), Action::SelectNext);
    assert_eq!(a(Key::Char('k')), Action::SelectPrev);
    assert_eq!(a(Key::Up), Action::SelectPrev);
    assert_eq!(a(Key::Char('p')), Action::Push);
    assert_eq!(a(Key::Char('P')), Action::Pull);
    assert_eq!(a(Key::Char('b')), Action::CreateBranch);
    assert_eq!(a(Key::Char('/')), Action::StartSearch);
    assert_eq!(a(Key::Char('r')), Action::Refresh);
    assert_eq!(a(Key::Char('?')), Action::ShowHelp);
    assert_eq!(a(Key::Char('s')), Action::Nothing);
    assert_eq!(a(Key::Esc), Action::Nothing);
}

#[test]
fn commit_mode_keys() {
    assert_eq!(commit_action(false, Key::Esc), Action::Leave);
    assert_eq!(commit_action(true, Key::Enter), Action::RejectEmpty);
    assert_eq!(commit_action(false, Key::Enter), Action::Submit);
    assert_eq!(commit_action(false, Key::Backspace), Action::DeleteChar);
    assert_eq!(commit_action(false, Key::Char('x')), Action::TypeChar('x'));
    assert_eq!(commit_action(false, Key::Tab), Action::Nothing);
}

#[test]
fn help_search_and_conflict_keys() {
    assert_eq!(help_action(Key::Esc), Action::Leave);
    assert_eq!(help_action(Key::Char('q')), Action::Leave);
    assert_eq!(help_action(Key::Char('?')), Action::Leave);
    assert_eq!(help_action(Key::Char('x')), Action::Nothing);
    assert_eq!(search_action(Key::Esc), Action::Leave);
    assert_eq!(search_action(Key::Char('a')), Action::TypeChar('a'));
    assert_eq!(search_action(Key::Backspace), Action::DeleteChar);
    assert_eq!(conflict_action(Key::Char('o')), Action::UseOurs);
    assert_eq!(conflict_action(Key::Char('t')), Action::UseTheirs);
    assert_eq!(conflict_action(Key::Char('n')), Action::NextConflict);
    assert_eq!(conflict_action(Key::Char('N')), Action::PrevConflict);
    assert_eq!(conflict_action(Key::Char('w')), Action::WriteResolution);
    assert_eq!(conflict_action(Key::Char('q')), Action::Leave);
    assert_eq!(conflict_action(Key::Esc), Action::Leave);
}

#[test]
fn detail_mode_keys() {
    assert_eq!(commit_detail_action(Panel::Left, Key::Char('j')), Action::SelectNext);
    assert_eq!(commit_detail_action(Panel::Right, Key::Char('j')), Action::ScrollDown(1));
    assert_eq!(commit_detail_action(Panel::Right, Key::Up), Action::ScrollUp(1));
    assert_eq!(commit_detail_action(Panel::Left, Key::Char('n')), Action::NextHunk);
    assert_eq!(commit_detail_action(Panel::Left, Key::Esc), Action::Leave);
    assert_eq!(commit_detail_action(Panel::Left, Key::Char('s')), Action::Nothing);
    assert_eq!(uncommitted_detail_action(Panel::Left, Key::Char('s')), Action::Stage);
    assert_eq!(uncommitted_detail_action(Panel::Right, Key::Char('c')), Action::StartCommit);
    assert_eq!(uncommitted_detail_action(Panel::Right, Key::Char('q')), Action::Quit);
    assert_eq!(uncommitted_detail_action(Panel::Left, Key::Char('?')), Action::ShowHelp);
}

#[test]
fn selection_moves_stay_in_the_list() {
    assert_eq!(select_down(None, 3), Some(0));
    assert_eq!(select_down(Some(0), 3), Some(1));
    assert_eq!(select_down(Some(2), 3), Some(2));
    assert_eq!(select_down(Some(7), 3), Some(2));
    assert_eq!(select_down(None, 0), None);
    assert_eq!(select_up(Some(2)), Some(1));
    assert_eq!(select_up(Some(0)), Some(0));
    assert_eq!(select_up(None), None);
    assert_eq!(select_up(select_down(Some(0), 3)), Some(0));
}

#[test]
fn list_lengths_per_tab() {
    assert_eq!(list_len(Tab::Branches, 4, 9), 4);
    assert_eq!(list_len(Tab::Log, 4, 9), 10);
    assert_eq!(list_len(Tab::Stash, 4, 9), 0);
}

#[test]
fn editing_typed_text() {
    assert_eq!(edit_text("ab", Key::Char('c')), "abc");
    assert_eq!(edit_text("abc", Key::Backspace), "ab");
    assert_eq!(edit_text("", Key::Backspace), "");
    assert_eq!(edit_text("é", Key::Backspace), "");
    assert_eq!(edit_text("ab", Key::Enter), "ab");
}

#[test]
fn log_rows_below_the_working_tree_are_commits() {
    assert_eq!(commit_at_row(Some(0), 3), None);
    assert_eq!(commit_at_row(Some(1), 3), Some(0));
    assert_eq!(commit_at_row(Some(3), 3), Some(2));
    assert_eq!(commit_at_row(Some(4), 3), None);
    assert_eq!(commit_at_row(None, 3), None);
}
