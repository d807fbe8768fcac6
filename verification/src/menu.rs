//! The terminal menu: a tree of numbered entries, built the way the menu
//! definitions lay it out, and the moves through it that a choice makes.

use vstd::prelude::*;
use crate::text::{decimal, push_decimal, push_str, trim, trimmed};

verus! {

/// What a menu entry does when it is chosen.
#[derive(Clone, Copy, PartialEq, Eq, Structural)]
pub enum MenuAction {
    UpdateMembers,
    EditAdditionalInfo,
    InputAdditionalInfo,
    Test,
    AnalyseFile,
    DraftsList,
    InputScreenshot,
    EditName,
    EditDate,
    EditReserve,
    EditTop15,
    EditSupply,
    EditAttendance,
    Duplicate,
    Delete,
    Write,
}

/// A menu node: the indices of its entries, its parent, the text shown for
/// it, and the action it runs, if it is a leaf.
pub struct Node {
    pub children: Vec<usize>,
    pub parent: Option<usize>,
    pub text: String,
    pub function: Option<MenuAction>,
}

/// A menu node as mathematical values.
#[verifier::ext_equal]
pub struct NodeView {
    pub children: Seq<usize>,
    pub parent: Option<usize>,
    pub text: Seq<char>,
    pub function: Option<MenuAction>,
}

impl View for Node {
    type V = NodeView;

    open spec fn view(&self) -> NodeView {
        NodeView {
            children: self.children@,
            parent: self.parent,
            text: self.text@,
            function: self.function,
        }
    }
}

/// The views of a node list.
pub open spec fn node_views(list: Seq<Node>) -> Seq<NodeView> {
    list.map_values(|n: Node| n@)
}

/// The line that closes every menu: the exit entry and the input prompt.
pub open spec fn exit_line() -> Seq<char> {
    "_) Выход\nВвод: "@
}

/// The line of entry number `number` named `name`.
pub open spec fn entry_line(number: nat, name: Seq<char>) -> Seq<char> {
    decimal(number) + ") "@ + name + "\n"@
}

/// The list after inserting a node under `parent` with display text `text`:
/// under a parent, the text is appended to the parent's text and the new
/// node is listed as its last entry, with an empty text of its own; a root
/// keeps the text.
pub open spec fn inserted(
    list: Seq<NodeView>,
    parent: Option<usize>,
    text: Seq<char>,
    function: Option<MenuAction>,
) -> Seq<NodeView> {
    let id = list.len() as usize;
    match parent {
        Some(p) => list.update(
            p as int,
            NodeView {
                children: list[p as int].children.push(id),
                text: list[p as int].text + text,
                ..list[p as int]
            },
        ).push(NodeView { children: Seq::empty(), parent, text: Seq::empty(), function }),
        None => list.push(NodeView { children: Seq::empty(), parent, text, function }),
    }
}

/// Whether the node list forms a tree: every entry lies later in the list and
/// names its node as parent, and every parent lies earlier.
pub open spec fn menu_wf(list: Seq<NodeView>) -> bool {
    &&& forall|i: int| #![trigger list[i].parent]
        0 <= i < list.len() ==> (list[i].parent matches Some(p) ==> p < i)
    &&& forall|i: int, k: int|
        #![trigger list[i].children[k]]
        0 <= i < list.len() && 0 <= k < list[i].children.len() ==> {
            &&& i < list[i].children[k] < list.len()
            &&& list[list[i].children[k] as int].parent == Some(i as usize)
        }
}

fn append_text(list: &mut Vec<Node>, p: usize, extra: &str)
    requires
        p < old(list)@.len(),
    ensures
        final(list)@.len() == old(list)@.len(),
        forall|i: int| 0 <= i < old(list)@.len() && i != p ==> final(list)@[i] == old(list)@[i],
        final(list)@[p as int]@ == (NodeView { text: old(list)@[p as int]@.text + extra@, ..old(list)@[p as int]@ }),
{
    let mut node = list.remove(p);
    push_str(&mut node.text, extra);
    list.insert(p, node);
}

fn add_child(list: &mut Vec<Node>, p: usize, child: usize)
    requires
        p < old(list)@.len(),
    ensures
        final(list)@.len() == old(list)@.len(),
        forall|i: int| 0 <= i < old(list)@.len() && i != p ==> final(list)@[i] == old(list)@[i],
        final(list)@[p as int]@ == (NodeView { children: old(list)@[p as int]@.children.push(child), ..old(list)@[p as int]@ }),
{
    let mut node = list.remove(p);
    node.children.push(child);
    list.insert(p, node);
}

/// Adds a node with display text `text` under `parent` (or as a root) and
/// returns its index, as `inserted` describes.
pub fn insert_node(
    list: &mut Vec<Node>,
    parent: Option<usize>,
    text: &str,
    function: Option<MenuAction>,
) -> (id: usize)
    requires
        parent matches Some(p) ==> p < old(list)@.len(),
        old(list)@.len() < usize::MAX,
    ensures
        id == old(list)@.len(),
        final(list)@.len() == old(list)@.len() + 1,
        node_views(final(list)@) == inserted(node_views(old(list)@), parent, text@, function),
{
    let id = list.len();
    let mut name = String::new();
    match parent {
        Some(p) => {
            append_text(list, p, text);
            add_child(list, p, id);
        },
        None => {
            push_str(&mut name, text);
        },
    }
    list.push(Node { children: Vec::new(), parent, text: name, function });
    assert(node_views(list@) =~= inserted(node_views(old(list)@), parent, text@, function));
    id
}

/// Adds entry number `number` named `name` under `parent`.
pub fn add_entry(
    list: &mut Vec<Node>,
    parent: usize,
    number: u64,
    name: &str,
    function: Option<MenuAction>,
) -> (id: usize)
    requires
        parent < old(list)@.len() < usize::MAX,
    ensures
        id == old(list)@.len(),
        final(list)@.len() == old(list)@.len() + 1,
        node_views(final(list)@) == inserted(
            node_views(old(list)@),
            Some(parent),
            entry_line(number as nat, name@),
            function,
        ),
{
    let mut line = String::new();
    push_decimal(&mut line, number);
    push_str(&mut line, ") ");
    push_str(&mut line, name);
    push_str(&mut line, "\n");
    insert_node(list, Some(parent), line.as_str(), function)
}

/// `text` followed by the lines of `entries`, numbered from 1.
pub open spec fn with_entry_lines(text: Seq<char>, entries: Seq<(Seq<char>, MenuAction)>) -> Seq<char>
    decreases entries.len(),
{
    if entries.len() == 0 {
        text
    } else {
        with_entry_lines(text, entries.drop_last()) + entry_line(entries.len(), entries.last().0)
    }
}

broadcast proof fn lemma_entry_lines_push(
    text: Seq<char>,
    entries: Seq<(Seq<char>, MenuAction)>,
    e: (Seq<char>, MenuAction),
)
    ensures
        #[trigger] with_entry_lines(text, entries.push(e)) == with_entry_lines(text, entries)
            + entry_line(entries.len() + 1, e.0),
{
    assert(entries.push(e).drop_last() =~= entries);
}

/// The names and actions of a list of entries as mathematical values.
pub open spec fn entry_views(entries: Seq<(&str, MenuAction)>) -> Seq<(Seq<char>, MenuAction)> {
    entries.map_values(|e: (&str, MenuAction)| (e.0@, e.1))
}

/// The list after adding `entries` under `parent` one after another, as
/// `add_entry` adds each: their lines are appended to the parent's text and
/// their leaves to the list.
pub open spec fn with_entries(
    list: Seq<NodeView>,
    parent: usize,
    entries: Seq<(Seq<char>, MenuAction)>,
) -> Seq<NodeView> {
    list.update(
        parent as int,
        NodeView {
            children: list[parent as int].children + Seq::new(
                entries.len(),
                |k: int| (list.len() + k) as usize,
            ),
            text: with_entry_lines(list[parent as int].text, entries),
            ..list[parent as int]
        },
    ) + Seq::new(entries.len(), |k: int| leaf(parent, entries[k].1))
}

/// Adds `entries` under `parent`, numbered from 1, each running its action.
fn add_entries(list: &mut Vec<Node>, parent: usize, entries: &Vec<(&str, MenuAction)>)
    requires
        parent < old(list)@.len(),
        old(list)@.len() + entries@.len() < usize::MAX,
    ensures
        final(list)@.len() == old(list)@.len() + entries@.len(),
        node_views(final(list)@) == with_entries(node_views(old(list)@), parent, entry_views(entries@)),
{
    let ghost start = node_views(list@);
    let ghost es = entry_views(entries@);
    let mut k: usize = 0;
    assert(node_views(list@) =~~= with_entries(start, parent, es.take(0)));
    while k < entries.len()
        invariant
            k <= entries@.len(),
            parent < start.len(),
            start.len() + entries@.len() < usize::MAX,
            list@.len() == start.len() + k,
            es == entry_views(entries@),
            node_views(list@) == with_entries(start, parent, es.take(k as int)),
        decreases entries@.len() - k,
    {
        let (name, action) = entries[k];
        let ghost before = node_views(list@);
        add_entry(list, parent, (k + 1) as u64, name, Some(action));
        proof {
            let next = es.take(k + 1);
            assert(next.drop_last() =~= es.take(k as int));
            assert(next.last() == (name@, action));
            assert(with_entry_lines(start[parent as int].text, next) == with_entry_lines(
                start[parent as int].text,
                es.take(k as int),
            ) + entry_line((k + 1) as nat, name@));
            assert(node_views(list@) =~~= with_entries(start, parent, next));
        }
        k = k + 1;
    }
    assert(es.take(k as int) =~= es);
}

/// Closes the menu of node `parent` with the exit entry and the input prompt.
pub fn close_menu(list: &mut Vec<Node>, parent: usize)
    requires
        parent < old(list)@.len(),
    ensures
        final(list)@.len() == old(list)@.len(),
        node_views(final(list)@) == node_views(old(list)@).update(
            parent as int,
            NodeView { text: old(list)@[parent as int]@.text + exit_line(), ..old(list)@[parent as int]@ },
        ),
{
    append_text(list, parent, "_) Выход\nВвод: ");
    assert(node_views(list@) =~= node_views(old(list)@).update(
        parent as int,
        NodeView { text: old(list)@[parent as int]@.text + exit_line(), ..old(list)@[parent as int]@ },
    ));
}

/// Inserting a node keeps a node list a tree.
pub proof fn law_insert_keeps_tree(
    list: Seq<NodeView>,
    parent: Option<usize>,
    text: Seq<char>,
    function: Option<MenuAction>,
)
    requires
        menu_wf(list),
        parent matches Some(p) ==> p < list.len(),
        list.len() < usize::MAX,
    ensures
        menu_wf(inserted(list, parent, text, function)),
{
    let next = inserted(list, parent, text, function);
    let id = list.len();
    assert forall|i: int, k: int|
        0 <= i < next.len() && 0 <= k < next[i].children.len() implies {
        &&& i < #[trigger] next[i].children[k] < next.len()
        &&& next[next[i].children[k] as int].parent == Some(i as usize)
    } by {
        if let Some(p) = parent {
            if i == p && k == list[i].children.len() {
                assert(next[i].children[k] == id);
            } else {
                assert(next[i].children[k] == list[i].children[k]);
            }
        } else {
            assert(next[i].children[k] == list[i].children[k]);
        }
    }
}

/// The node shown after the action of node `current` has run: its parent, or
/// `None` (leave the menu) for a root.
pub fn menu_after_action(list: &Vec<Node>, current: usize) -> (next: Option<usize>)
    requires
        current < list@.len(),
    ensures
        next == list@[current as int].parent,
{
    list[current].parent
}

/// The node shown after choosing `choice` at node `current`: entry `choice`
/// (counted from 1) when there is one, else the parent, or `None` (leave the
/// menu) for a root.
pub fn menu_choose(list: &Vec<Node>, current: usize, choice: usize) -> (next: Option<usize>)
    requires
        current < list@.len(),
    ensures
        1 <= choice <= list@[current as int].children@.len() ==> next == Some(
            list@[current as int].children@[choice - 1],
        ),
        !(1 <= choice <= list@[current as int].children@.len()) ==> next == list@[current as int].parent,
{
    let node = &list[current];
    if choice >= 1 && choice <= node.children.len() {
        Some(node.children[choice - 1])
    } else {
        node.parent
    }
}

/// In a tree-shaped menu every move goes to a node of the menu: an entry
/// below the current node or its parent above it.
pub proof fn law_moves_stay_in_menu(list: Seq<NodeView>, current: int, choice: int)
    requires
        menu_wf(list),
        0 <= current < list.len(),
    ensures
        1 <= choice <= list[current].children.len() ==> current
            < list[current].children[choice - 1] < list.len(),
        list[current].parent matches Some(p) ==> p < current,
{
    if 1 <= choice <= list[current].children.len() {
        assert(current < list[current].children[choice - 1] < list.len());
    }
}

/// The value of a run of decimal digits.
pub open spec fn digits_value(s: Seq<char>) -> nat
    decreases s.len(),
{
    if s.len() == 0 {
        0
    } else {
        digits_value(s.drop_last()) * 10 + ((s.last() as u32) - 48) as nat
    }
}

/// Whether `c` is an ASCII digit.
pub open spec fn is_digit(c: char) -> bool {
    '0' <= c <= '9'
}

/// What `str::parse::<usize>` makes of `s`: an optional `+` followed by at
/// least one ASCII digit, and nothing else, of a value that fits in `usize`.
pub open spec fn parsed_usize(s: Seq<char>) -> Option<usize> {
    let digits = unsigned_digits(s);
    if digits.len() > 0 && all_digit_chars(digits) && digits_value(digits) <= usize::MAX {
        Some(digits_value(digits) as usize)
    } else {
        None
    }
}

/// `s` without a leading `+`.
pub open spec fn unsigned_digits(s: Seq<char>) -> Seq<char> {
    if s.len() > 0 && s[0] == '+' {
        s.drop_first()
    } else {
        s
    }
}

/// Whether every character of `s` is an ASCII digit.
pub open spec fn all_digit_chars(s: Seq<char>) -> bool {
    forall|i: int| 0 <= i < s.len() ==> #[trigger] is_digit(s[i])
}

fn all_digits(chars: &Vec<char>, start: usize) -> (b: bool)
    requires
        start <= chars@.len(),
    ensures
        b == forall|k: int| start <= k < chars@.len() ==> #[trigger] is_digit(chars@[k]),
{
    let mut i: usize = start;
    while i < chars.len()
        invariant
            start <= i <= chars@.len(),
            forall|k: int| start <= k < i ==> #[trigger] is_digit(chars@[k]),
        decreases chars@.len() - i,
    {
        let c = chars[i];
        if !('0' <= c && c <= '9') {
            assert(!is_digit(chars@[i as int]));
            return false;
        }
        i = i + 1;
    }
    true
}

fn digits_number(chars: &Vec<char>, start: usize) -> (n: Option<usize>)
    requires
        start <= chars@.len(),
        forall|k: int| start <= k < chars@.len() ==> #[trigger] is_digit(chars@[k]),
    ensures
        n == (if digits_value(chars@.skip(start as int)) <= usize::MAX {
            Some(digits_value(chars@.skip(start as int)) as usize)
        } else {
            None
        }),
{
    let mut value: usize = 0;
    let mut overflow = false;
    let mut i: usize = start;
    assert(chars@.subrange(start as int, start as int) =~= Seq::<char>::empty());
    while i < chars.len()
        invariant
            start <= i <= chars@.len(),
            forall|k: int| start <= k < chars@.len() ==> #[trigger] is_digit(chars@[k]),
            !overflow ==> value == digits_value(chars@.subrange(start as int, i as int)),
            overflow ==> digits_value(chars@.subrange(start as int, i as int)) > usize::MAX,
        decreases chars@.len() - i,
    {
        let c = chars[i];
        assert(is_digit(chars@[i as int]));
        let d: usize = (c as u32 - 48) as usize;
        assert(chars@.subrange(start as int, i + 1).drop_last() =~= chars@.subrange(
            start as int,
            i as int,
        ));
        assert(chars@.subrange(start as int, i + 1).last() == c);
        if !overflow {
            match value.checked_mul(10) {
                Some(v) => match v.checked_add(d) {
                    Some(w) => {
                        value = w;
                    },
                    None => {
                        overflow = true;
                    },
                },
                None => {
                    overflow = true;
                },
            }
        }
        i = i + 1;
    }
    assert(chars@.subrange(start as int, chars@.len() as int) =~= chars@.skip(start as int));
    if overflow {
        None
    } else {
        Some(value)
    }
}

/// Reads `s` as an unsigned number: an optional `+` followed by ASCII
/// digits, of a value that fits in `usize`; `None` otherwise.
pub fn parse_usize(s: &str) -> (n: Option<usize>)
    ensures
        n == parsed_usize(s@),
{
    let chars = crate::text::chars_of(s);
    let start: usize = if chars.len() > 0 && chars[0] == '+' {
        1
    } else {
        0
    };
    assert(chars@.skip(start as int) =~= unsigned_digits(s@));
    if start >= chars.len() {
        assert(chars@.skip(start as int).len() == 0);
        return None;
    }
    if !all_digits(&chars, start) {
        proof {
            let k = choose|k: int| start <= k < chars@.len() && !is_digit(chars@[k]);
            assert(!is_digit(chars@.skip(start as int)[k - start]));
        }
        return None;
    }
    digits_number(&chars, start)
}

/// The number a menu input line stands for: the number in it once white
/// space is trimmed, or 0 when it holds none.
pub fn parse_choice(input: &str) -> (choice: usize)
    ensures
        choice == (match parsed_usize(trimmed(input@)) {
            Some(n) => n,
            None => 0,
        }),
{
    match parse_usize(trim(input)) {
        Some(n) => n,
        None => 0,
    }
}

/// The entry picked from a list of `count` items by an input line: its
/// number, when the trimmed line holds a number from 1 to `count`.
pub fn parse_pick(input: &str, count: usize) -> (pick: Option<usize>)
    ensures
        pick == (match parsed_usize(trimmed(input@)) {
            Some(n) => if 1 <= n <= count {
                Some(n)
            } else {
                None
            },
            None => None,
        }),
{
    match parse_usize(trim(input)) {
        Some(n) => if n >= 1 && n <= count {
            Some(n)
        } else {
            None
        },
        None => None,
    }
}

/// A leaf entry under `parent` that runs `action`.
pub open spec fn leaf(parent: usize, action: MenuAction) -> NodeView {
    NodeView { children: Seq::empty(), parent: Some(parent), text: Seq::empty(), function: Some(action) }
}

/// A submenu node under `parent` with entries `children` and menu text `text`.
pub open spec fn submenu(parent: Option<usize>, children: Seq<usize>, text: Seq<char>) -> NodeView {
    NodeView { children, parent, text, function: None }
}

/// The greeting shown above the main menu.
pub open spec fn greeting() -> Seq<char> {
    "Приветствуем вас в StalcraftClanTool - инструмент для оптимизации работы с кланом.\nЗапомните, что _ в меню выбора означает любой не представленный вариант.\nВыберите режим работы:\n"@
}

/// The main menu: members (update from the API, edit and enter Discord names,
/// a test listing), parties (table optimisation), and stages (drafts,
/// loading a screenshot).
pub open spec fn main_menu() -> Seq<NodeView> {
    seq![
        submenu(
            None,
            seq![1usize, 6, 8],
            greeting() + entry_line(1, "Участники"@) + entry_line(2, "Отряды"@) + entry_line(
                3,
                "Этапы"@,
            ) + exit_line(),
        ),
        submenu(
            Some(0usize),
            seq![2usize, 3, 4, 5],
            entry_line(1, "Обновить из API"@) + entry_line(2, "Редактировать дополнительные данные"@)
                + entry_line(3, "Ввести дополнительные данные"@) + entry_line(
                4,
                "Тестовая функция"@,
            ) + exit_line(),
        ),
        leaf(1, MenuAction::UpdateMembers),
        leaf(1, MenuAction::EditAdditionalInfo),
        leaf(1, MenuAction::InputAdditionalInfo),
        leaf(1, MenuAction::Test),
        submenu(Some(0usize), seq![7usize], entry_line(1, "Оптимизация таблицы"@) + exit_line()),
        leaf(6, MenuAction::AnalyseFile),
        submenu(
            Some(0usize),
            seq![9usize, 10],
            entry_line(1, "Черновики"@) + entry_line(2, "Загрузить скриншот"@) + exit_line(),
        ),
        leaf(8, MenuAction::DraftsList),
        leaf(8, MenuAction::InputScreenshot),
    ]
}

/// Builds the main menu.
pub fn fill_list() -> (list: Vec<Node>)
    ensures
        node_views(list@) == main_menu(),
{
    let mut list: Vec<Node> = Vec::new();
    let root = insert_node(
        &mut list,
        None,
        "Приветствуем вас в StalcraftClanTool - инструмент для оптимизации работы с кланом.\nЗапомните, что _ в меню выбора означает любой не представленный вариант.\nВыберите режим работы:\n",
        None,
    );
    let members = add_entry(&mut list, root, 1, "Участники", None);
    assert(node_views(list@)[0] =~~= submenu(None, seq![1usize], greeting() + entry_line(1, "Участники"@)));
    let member_entries = vec![
        ("Обновить из API", MenuAction::UpdateMembers),
        ("Редактировать дополнительные данные", MenuAction::EditAdditionalInfo),
        ("Ввести дополнительные данные", MenuAction::InputAdditionalInfo),
        ("Тестовая функция", MenuAction::Test),
    ];
    let ghost members_es = Seq::empty().push(("Обновить из API"@, MenuAction::UpdateMembers)).push(
        ("Редактировать дополнительные данные"@, MenuAction::EditAdditionalInfo),
    ).push(("Ввести дополнительные данные"@, MenuAction::InputAdditionalInfo)).push(
        ("Тестовая функция"@, MenuAction::Test),
    );
    assert(entry_views(member_entries@) =~= members_es);
    add_entries(&mut list, members, &member_entries);
    assert(node_views(list@)[1].children =~= seq![2usize, 3usize, 4usize, 5usize]);
    close_menu(&mut list, members);
    let parties = add_entry(&mut list, root, 2, "Отряды", None);
    assert(node_views(list@)[0] =~~= submenu(
        None,
        seq![1usize, 6usize],
        greeting() + entry_line(1, "Участники"@) + entry_line(2, "Отряды"@),
    ));
    let party_entries = vec![("Оптимизация таблицы", MenuAction::AnalyseFile)];
    let ghost parties_es = Seq::empty().push(("Оптимизация таблицы"@, MenuAction::AnalyseFile));
    assert(entry_views(party_entries@) =~= parties_es);
    add_entries(&mut list, parties, &party_entries);
    assert(node_views(list@)[6].children =~= seq![7usize]);
    close_menu(&mut list, parties);
    let stages = add_entry(&mut list, root, 3, "Этапы", None);
    let stage_entries = vec![
        ("Черновики", MenuAction::DraftsList),
        ("Загрузить скриншот", MenuAction::InputScreenshot),
    ];
    let ghost stages_es = Seq::empty().push(("Черновики"@, MenuAction::DraftsList)).push(
        ("Загрузить скриншот"@, MenuAction::InputScreenshot),
    );
    assert(entry_views(stage_entries@) =~= stages_es);
    add_entries(&mut list, stages, &stage_entries);
    assert(node_views(list@)[8].children =~= seq![9usize, 10usize]);
    close_menu(&mut list, stages);
    assert(node_views(list@)[0] =~~= submenu(
        None,
        seq![1usize, 6usize, 8usize],
        greeting() + entry_line(1, "Участники"@) + entry_line(2, "Отряды"@) + entry_line(3, "Этапы"@),
    ));
    close_menu(&mut list, root);
    proof {
        broadcast use lemma_entry_lines_push;

        assert(with_entry_lines(Seq::empty(), members_es) =~= entry_line(1, "Обновить из API"@)
            + entry_line(2, "Редактировать дополнительные данные"@) + entry_line(
            3,
            "Ввести дополнительные данные"@,
        ) + entry_line(4, "Тестовая функция"@));
        assert(with_entry_lines(Seq::empty(), parties_es) =~= entry_line(1, "Оптимизация таблицы"@));
        assert(with_entry_lines(Seq::empty(), stages_es) =~= entry_line(1, "Черновики"@) + entry_line(
            2,
            "Загрузить скриншот"@,
        ));
    }
    assert(node_views(list@) =~~= main_menu());
    list
}

/// The menu of a draft: editing its name, date, reserve, top 15, supply and
/// attendance, duplicating, deleting and writing it.
pub open spec fn draft_menu_spec() -> Seq<NodeView> {
    seq![
        NodeView { children: seq![1usize, 2usize, 3usize, 4usize, 5usize, 6usize, 7usize, 8usize, 9usize], parent: None, text: "Выберите режим работы:\n"@ + entry_line(1, "Редактировать название"@) + entry_line(2, "Редактировать дату"@) + entry_line(3, "Редактировать запас"@) + entry_line(4, "Редактировать топ 15"@) + entry_line(5, "Редактировать получивших расходники"@) + entry_line(6, "Редактировать посещаемость"@) + entry_line(7, "Дублировать черновик"@) + entry_line(8, "Удалить черновик"@) + entry_line(9, "Записать черновик"@) + exit_line(), function: None },
        NodeView { children: Seq::<usize>::empty(), parent: Some(0usize), text: Seq::<char>::empty(), function: Some(MenuAction::EditName) },
        NodeView { children: Seq::<usize>::empty(), parent: Some(0usize), text: Seq::<char>::empty(), function: Some(MenuAction::EditDate) },
        NodeView { children: Seq::<usize>::empty(), parent: Some(0usize), text: Seq::<char>::empty(), function: Some(MenuAction::EditReserve) },
        NodeView { children: Seq::<usize>::empty(), parent: Some(0usize), text: Seq::<char>::empty(), function: Some(MenuAction::EditTop15) },
        NodeView { children: Seq::<usize>::empty(), parent: Some(0usize), text: Seq::<char>::empty(), function: Some(MenuAction::EditSupply) },
        NodeView { children: Seq::<usize>::empty(), parent: Some(0usize), text: Seq::<char>::empty(), function: Some(MenuAction::EditAttendance) },
        NodeView { children: Seq::<usize>::empty(), parent: Some(0usize), text: Seq::<char>::empty(), function: Some(MenuAction::Duplicate) },
        NodeView { children: Seq::<usize>::empty(), parent: Some(0usize), text: Seq::<char>::empty(), function: Some(MenuAction::Delete) },
        NodeView { children: Seq::<usize>::empty(), parent: Some(0usize), text: Seq::<char>::empty(), function: Some(MenuAction::Write) },
    ]
}

/// Builds the menu of a draft.
pub fn draft_menu() -> (list: Vec<Node>)
    ensures
        node_views(list@) == draft_menu_spec(),
{
    let mut list: Vec<Node> = Vec::new();
    let root = insert_node(&mut list, None, "Выберите режим работы:\n", None);
    let entries = vec![
        ("Редактировать название", MenuAction::EditName),
        ("Редактировать дату", MenuAction::EditDate),
        ("Редактировать запас", MenuAction::EditReserve),
        ("Редактировать топ 15", MenuAction::EditTop15),
        ("Редактировать получивших расходники", MenuAction::EditSupply),
        ("Редактировать посещаемость", MenuAction::EditAttendance),
        ("Дублировать черновик", MenuAction::Duplicate),
        ("Удалить черновик", MenuAction::Delete),
        ("Записать черновик", MenuAction::Write),
    ];
    let ghost es = Seq::empty().push(("Редактировать название"@, MenuAction::EditName)).push(
        ("Редактировать дату"@, MenuAction::EditDate),
    ).push(("Редактировать запас"@, MenuAction::EditReserve)).push(
        ("Редактировать топ 15"@, MenuAction::EditTop15),
    ).push(("Редактировать получивших расходники"@, MenuAction::EditSupply)).push(
        ("Редактировать посещаемость"@, MenuAction::EditAttendance),
    ).push(("Дублировать черновик"@, MenuAction::Duplicate)).push(
        ("Удалить черновик"@, MenuAction::Delete),
    ).push(("Записать черновик"@, MenuAction::Write));
    assert(entry_views(entries@) =~= es);
    add_entries(&mut list, root, &entries);
    assert(node_views(list@)[0].children =~= seq![1usize, 2, 3, 4, 5, 6, 7, 8, 9]);
    close_menu(&mut list, root);
    proof {
        broadcast use lemma_entry_lines_push;

        assert(with_entry_lines("Выберите режим работы:\n"@, es) == "Выберите режим работы:\n"@
            + entry_line(1, "Редактировать название"@)
            + entry_line(2, "Редактировать дату"@)
            + entry_line(3, "Редактировать запас"@)
            + entry_line(4, "Редактировать топ 15"@)
            + entry_line(5, "Редактировать получивших расходники"@)
            + entry_line(6, "Редактировать посещаемость"@)
            + entry_line(7, "Дублировать черновик"@)
            + entry_line(8, "Удалить черновик"@)
            + entry_line(9, "Записать черновик"@)
        );
    }
    assert(node_views(list@) =~~= draft_menu_spec());
    list
}

/// The name under which the menus offer an action.
pub open spec fn action_label(action: MenuAction) -> Seq<char> {
    match action {
        MenuAction::UpdateMembers => "Обновить из API"@,
        MenuAction::EditAdditionalInfo => "Редактировать дополнительные данные"@,
        MenuAction::InputAdditionalInfo => "Ввести дополнительные данные"@,
        MenuAction::Test => "Тестовая функция"@,
        MenuAction::AnalyseFile => "Оптимизация таблицы"@,
        MenuAction::DraftsList => "Черновики"@,
        MenuAction::InputScreenshot => "Загрузить скриншот"@,
        MenuAction::EditName => "Редактировать название"@,
        MenuAction::EditDate => "Редактировать дату"@,
        MenuAction::EditReserve => "Редактировать запас"@,
        MenuAction::EditTop15 => "Редактировать топ 15"@,
        MenuAction::EditSupply => "Редактировать получивших расходники"@,
        MenuAction::EditAttendance => "Редактировать посещаемость"@,
        MenuAction::Duplicate => "Дублировать черновик"@,
        MenuAction::Delete => "Удалить черновик"@,
        MenuAction::Write => "Записать черновик"@,
    }
}

/// The name of the action run by entry `k` (from 0) of node `i`; empty when
/// that entry runs none.
pub open spec fn label_at(list: Seq<NodeView>, i: int, k: int) -> Seq<char> {
    match list[list[i].children[k] as int].function {
        Some(action) => action_label(action),
        None => Seq::empty(),
    }
}

/// The actions run by the entries of node `i`, in entry order.
pub open spec fn entry_actions(list: Seq<NodeView>, i: int) -> Seq<Option<MenuAction>> {
    Seq::new(list[i].children.len(), |k: int| list[list[i].children[k] as int].function)
}

/// Each entry of a menu runs the action its line names: in the members,
/// parties and stages menus and in a draft's menu, every entry leads to a
/// node that runs an action, and line `k + 1` of the menu's text carries the
/// name of the action its entry `k` runs. The entries come in this order:
/// members: update from the API, edit, then enter additional data, the test
/// listing; parties: table optimisation; stages: drafts, loading a
/// screenshot; a draft: edit name, date, reserve, top 15, supply,
/// attendance, then duplicate, delete, write.
pub proof fn law_entries_run_what_they_name()
    ensures
        entry_actions(main_menu(), 1) == seq![
            Some(MenuAction::UpdateMembers),
            Some(MenuAction::EditAdditionalInfo),
            Some(MenuAction::InputAdditionalInfo),
            Some(MenuAction::Test),
        ],
        entry_actions(main_menu(), 6) == seq![Some(MenuAction::AnalyseFile)],
        entry_actions(main_menu(), 8) == seq![
            Some(MenuAction::DraftsList),
            Some(MenuAction::InputScreenshot),
        ],
        entry_actions(draft_menu_spec(), 0) == seq![
            Some(MenuAction::EditName),
            Some(MenuAction::EditDate),
            Some(MenuAction::EditReserve),
            Some(MenuAction::EditTop15),
            Some(MenuAction::EditSupply),
            Some(MenuAction::EditAttendance),
            Some(MenuAction::Duplicate),
            Some(MenuAction::Delete),
            Some(MenuAction::Write),
        ],
        forall|i: int, k: int|
            (i == 1 || i == 6 || i == 8) && 0 <= k < main_menu()[i].children.len() ==> (
            #[trigger] main_menu()[main_menu()[i].children[k] as int]).function is Some,
        main_menu()[1].children.len() == 4,
        main_menu()[1].text == entry_line(1, label_at(main_menu(), 1, 0)) + entry_line(2, label_at(main_menu(), 1, 1)) + entry_line(3, label_at(main_menu(), 1, 2)) + entry_line(4, label_at(main_menu(), 1, 3)) + exit_line(),
        main_menu()[6].children.len() == 1,
        main_menu()[6].text == entry_line(1, label_at(main_menu(), 6, 0)) + exit_line(),
        main_menu()[8].children.len() == 2,
        main_menu()[8].text == entry_line(1, label_at(main_menu(), 8, 0)) + entry_line(2, label_at(main_menu(), 8, 1)) + exit_line(),
        forall|k: int|
            0 <= k < draft_menu_spec()[0].children.len() ==> (#[trigger] draft_menu_spec()[draft_menu_spec()[0].children[k] as int]).function is Some,
        draft_menu_spec()[0].children.len() == 9,
        draft_menu_spec()[0].text == "Выберите режим работы:\n"@ + entry_line(1, label_at(draft_menu_spec(), 0, 0)) + entry_line(2, label_at(draft_menu_spec(), 0, 1)) + entry_line(3, label_at(draft_menu_spec(), 0, 2)) + entry_line(4, label_at(draft_menu_spec(), 0, 3)) + entry_line(5, label_at(draft_menu_spec(), 0, 4)) + entry_line(6, label_at(draft_menu_spec(), 0, 5)) + entry_line(7, label_at(draft_menu_spec(), 0, 6)) + entry_line(8, label_at(draft_menu_spec(), 0, 7)) + entry_line(9, label_at(draft_menu_spec(), 0, 8)) + exit_line(),
{
    assert(entry_actions(main_menu(), 1) =~= seq![
        Some(MenuAction::UpdateMembers),
        Some(MenuAction::EditAdditionalInfo),
        Some(MenuAction::InputAdditionalInfo),
        Some(MenuAction::Test),
    ]);
    assert(entry_actions(main_menu(), 6) =~= seq![Some(MenuAction::AnalyseFile)]);
    assert(entry_actions(main_menu(), 8) =~= seq![
        Some(MenuAction::DraftsList),
        Some(MenuAction::InputScreenshot),
    ]);
    assert(entry_actions(draft_menu_spec(), 0) =~= seq![
        Some(MenuAction::EditName),
        Some(MenuAction::EditDate),
        Some(MenuAction::EditReserve),
        Some(MenuAction::EditTop15),
        Some(MenuAction::EditSupply),
        Some(MenuAction::EditAttendance),
        Some(MenuAction::Duplicate),
        Some(MenuAction::Delete),
        Some(MenuAction::Write),
    ]);
}

/// The kinds of change a draft's menu offers.
#[derive(Clone, Copy, PartialEq, Eq, Structural)]
pub enum ProcessDraftType {
    EDITNAME,
    EDITDATE,
    EDITRESERVE,
    EDITTOP15,
    EDITSUPPLY,
    EDITATTENDANCE,
    DUPLICATE,
    DELETE,
    WRITE,
}

/// The change to a draft that a menu action asks for; `None` for actions of
/// the main menu.
pub fn draft_command(action: MenuAction) -> (command: Option<ProcessDraftType>)
    ensures
        command is None <==> (action == MenuAction::UpdateMembers || action
            == MenuAction::EditAdditionalInfo || action == MenuAction::InputAdditionalInfo
            || action == MenuAction::Test || action == MenuAction::AnalyseFile || action
            == MenuAction::DraftsList || action == MenuAction::InputScreenshot),
        action == MenuAction::EditName ==> command == Some(ProcessDraftType::EDITNAME),
        action == MenuAction::EditDate ==> command == Some(ProcessDraftType::EDITDATE),
        action == MenuAction::EditReserve ==> command == Some(ProcessDraftType::EDITRESERVE),
        action == MenuAction::EditTop15 ==> command == Some(ProcessDraftType::EDITTOP15),
        action == MenuAction::EditSupply ==> command == Some(ProcessDraftType::EDITSUPPLY),
        action == MenuAction::EditAttendance ==> command == Some(ProcessDraftType::EDITATTENDANCE),
        action == MenuAction::Duplicate ==> command == Some(ProcessDraftType::DUPLICATE),
        action == MenuAction::Delete ==> command == Some(ProcessDraftType::DELETE),
        action == MenuAction::Write ==> command == Some(ProcessDraftType::WRITE),
{
    match action {
        MenuAction::EditName => Some(ProcessDraftType::EDITNAME),
        MenuAction::EditDate => Some(ProcessDraftType::EDITDATE),
        MenuAction::EditReserve => Some(ProcessDraftType::EDITRESERVE),
        MenuAction::EditTop15 => Some(ProcessDraftType::EDITTOP15),
        MenuAction::EditSupply => Some(ProcessDraftType::EDITSUPPLY),
        MenuAction::EditAttendance => Some(ProcessDraftType::EDITATTENDANCE),
        MenuAction::Duplicate => Some(ProcessDraftType::DUPLICATE),
        MenuAction::Delete => Some(ProcessDraftType::DELETE),
        MenuAction::Write => Some(ProcessDraftType::WRITE),
        _ => None,
    }
}

} // verus!
