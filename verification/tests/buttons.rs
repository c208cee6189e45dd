use cmd_args::MessageButton;
use cmd_args::MessageButtonAction;
use cmd_args::MessageButtons;

#[derive(Debug, PartialEq)]
struct PageAction {
    page: u32,
}

impl MessageButtonAction for PageAction {
    fn ser(&self) -> String {
        format!("page:{}", self.page)
    }

    fn deser(input: &str) -> Option<Self> {
        let rest = input.strip_prefix("page:")?;
        rest.parse().ok().map(|page| PageAction { page })
    }
}

#[test]
fn button_keeps_label_and_serializes_action() {
    let b = MessageButton::new(String::from("Next"), &PageAction { page: 2 });
    assert_eq!(b.text(), "Next");
    assert_eq!(b.data(), "page:2");
    assert_eq!(
        PageAction::deser(b.data()),
        Some(PageAction { page: 2 })
    );
}

#[test]
fn buttons_keep_their_layout() {
    let rows = vec![
        vec![
            MessageButton::new(String::from("A"), &PageAction { page: 1 }),
            MessageButton::new(String::from("B"), &PageAction { page: 2 }),
        ],
        vec![MessageButton::new(String::from("C"), &PageAction { page: 3 })],
    ];
    let buttons = MessageButtons::new(rows);
    assert_eq!(buttons.len(), 2);
    assert_eq!(buttons.row(0).len(), 2);
    assert_eq!(buttons.row(1).len(), 1);
    assert_eq!(buttons.row(0)[0].text(), "A");
    assert_eq!(buttons.row(0)[1].text(), "B");
    assert_eq!(buttons.row(1)[0].text(), "C");
    assert_eq!(buttons.row(1)[0].data(), "page:3");
}
