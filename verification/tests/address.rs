//! Address headers.

use rustle::address::{display_name, first_address, parse_first, parse_list, Mailbox};

#[test]
fn parses_names_and_addresses() {
    let list = parse_list(
        r#""Lovelace, Ada" <ada@example.com>, bob@example.org, Carol (work) <carol@x.y>"#,
    );
    assert_eq!(list.len(), 3);
    assert_eq!(
        list[0],
        Mailbox {
            name: "Lovelace, Ada".into(),
            address: "ada@example.com".into()
        }
    );
    assert_eq!(
        list[1],
        Mailbox {
            name: String::new(),
            address: "bob@example.org".into()
        }
    );
    assert_eq!(
        list[2],
        Mailbox {
            name: "Carol".into(),
            address: "carol@x.y".into()
        }
    );
}

#[test]
fn display_helpers() {
    assert_eq!(
        display_name("Ada Lovelace <ada@example.com>"),
        "Ada Lovelace"
    );
    assert_eq!(display_name("ada@example.com"), "ada@example.com");
    assert_eq!(first_address("Ada <ADA@Example.com>"), "ada@example.com");
    assert_eq!(first_address("nonsense"), "");
    assert!(parse_first("").is_none());
    assert_eq!(parse_first("a@b, c@d").unwrap().address, "a@b");
}

#[test]
fn what_is_displayed_reads_back() {
    for (name, address) in [("Ada Lovelace", "ada@example.com"), ("", "bob@x.y")] {
        let mailbox = Mailbox {
            name: name.into(),
            address: address.into(),
        };
        let shown = mailbox.display();
        assert_eq!(parse_list(&shown), vec![mailbox]);
    }
}

#[test]
fn lists_with_a_comma_between_read_one_after_the_other() {
    let first = "ada@example.com, Bob (home) bob@x.y";
    let second = "\"Hopper, Grace\" <grace@x.y>, carol@x.y";
    let mut both = parse_list(first);
    both.extend(parse_list(second));
    assert_eq!(both.len(), 4);
    assert_eq!(parse_list(&format!("{first},{second}")), both);
}

#[test]
fn stray_commas_add_nothing() {
    assert_eq!(parse_list(" , ,"), vec![]);
    let list = parse_list("ada@example.com, bob@x.y");
    assert_eq!(list.len(), 2);
    assert_eq!(parse_list(", ,ada@example.com, bob@x.y"), list);
    assert_eq!(parse_list("ada@example.com, bob@x.y, ,"), list);
}

#[test]
fn quotes_escapes_and_nested_comments() {
    let list = parse_list(r#""A \"B\" C" <a@b.c>, (x (y) z) d@e.f"#);
    assert_eq!(list.len(), 2);
    assert_eq!(list[0].name, "A \"B\" C");
    assert_eq!(list[1].address, "d@e.f");
    assert!(parse_list(", ,").is_empty());
}
