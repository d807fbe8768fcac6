use stalcraft_clan_tool::menu::{
    draft_command, draft_menu, fill_list, insert_node, menu_after_action, menu_choose, parse_choice,
    parse_pick, parse_usize, MenuAction, Node, ProcessDraftType,
};

#[test]
fn main_menu_layout() {
    let list = fill_list();
    assert_eq!(list.len(), 11);
    assert_eq!(
        list[0].text,
        "Приветствуем вас в StalcraftClanTool - инструмент для оптимизации работы с кланом.\n\
         Запомните, что _ в меню выбора означает любой не представленный вариант.\n\
         Выберите режим работы:\n1) Участники\n2) Отряды\n3) Этапы\n_) Выход\nВвод: "
    );
    assert_eq!(list[0].children, vec![1, 6, 8]);
    assert_eq!(
        list[1].text,
        "1) Обновить из API\n2) Редактировать дополнительные данные\n3) Ввести дополнительные данные\n4) Тестовая функция\n_) Выход\nВвод: "
    );
    assert!(list[2].function == Some(MenuAction::UpdateMembers));
    assert!(list[7].function == Some(MenuAction::AnalyseFile));
    assert_eq!(list[10].parent, Some(8));
    assert!(list[10].function == Some(MenuAction::InputScreenshot));
}

#[test]
fn draft_menu_layout() {
    let list = draft_menu();
    assert_eq!(list.len(), 10);
    assert!(list[0].text.starts_with("Выберите режим работы:\n1) Редактировать название\n"));
    assert!(list[0].text.ends_with("9) Записать черновик\n_) Выход\nВвод: "));
    assert!(list[9].function == Some(MenuAction::Write));
    assert!(draft_command(MenuAction::Write) == Some(ProcessDraftType::WRITE));
    assert!(draft_command(MenuAction::EditName) == Some(ProcessDraftType::EDITNAME));
    assert!(draft_command(MenuAction::DraftsList).is_none());
}

#[test]
fn moving_through_the_menu() {
    let list = fill_list();
    assert_eq!(menu_choose(&list, 0, 2), Some(6));
    assert_eq!(menu_choose(&list, 0, 0), None);
    assert_eq!(menu_choose(&list, 0, 4), None);
    assert_eq!(menu_choose(&list, 1, 9), Some(0));
    assert_eq!(menu_after_action(&list, 3), Some(1));
}

#[test]
fn insert_under_parent_extends_its_text() {
    let mut list: Vec<Node> = Vec::new();
    let root = insert_node(&mut list, None, "Root\n", None);
    let child = insert_node(&mut list, Some(root), "1) Child\n", Some(MenuAction::Test));
    assert_eq!(child, 1);
    assert_eq!(list[0].text, "Root\n1) Child\n");
    assert_eq!(list[1].text, "");
    assert_eq!(list[0].children, vec![1]);
}

#[test]
fn parsing_numbers() {
    assert_eq!(parse_usize("42"), Some(42));
    assert_eq!(parse_usize("+7"), Some(7));
    assert_eq!(parse_usize("007"), Some(7));
    assert_eq!(parse_usize(""), None);
    assert_eq!(parse_usize("+"), None);
    assert_eq!(parse_usize("-1"), None);
    assert_eq!(parse_usize("1 2"), None);
    assert_eq!(parse_usize("18446744073709551615"), Some(usize::MAX));
    assert_eq!(parse_usize("18446744073709551616"), None);
    assert_eq!(parse_usize("99999999999999999999x"), None);
}

#[test]
fn parsing_menu_input() {
    assert_eq!(parse_choice(" 3\n"), 3);
    assert_eq!(parse_choice("_\n"), 0);
    assert_eq!(parse_choice("\n"), 0);
    assert_eq!(parse_pick("2\n", 5), Some(2));
    assert_eq!(parse_pick("0\n", 5), None);
    assert_eq!(parse_pick("6\n", 5), None);
    assert_eq!(parse_pick("abc", 5), None);
}
