use tinta_core::db::{clean_tags, UndoAction};
use tinta_core::search::search_query;
use tinta_core::tools::{
    catalog_description, check_part, list_meetings, page_of, resolve_id, search_limit, summary_has_text, tags_after, trim_id,
    ListFilter, Listed, Part, ResolveError, Tool, NOTICE,
};

#[test]
fn the_catalog_lists_every_tool_without_the_notice() {
    let tools = Tool::all();
    assert_eq!(tools.len(), 19);
    for t in &tools {
        assert_eq!(Tool::of(t.name()), Some(*t));
        let description = format!("Does something with meetings. {NOTICE}");
        assert!(!catalog_description(&description).contains("untrusted"));
    }
    let read_only = tools.iter().filter(|t| t.read_only()).count();
    assert_eq!(read_only, 7);
    assert_eq!(Tool::of("drop_tables"), None);
}

#[test]
fn mcp_changes_are_revisions_and_deletes_go_to_trash() {
    let tags = clean_tags(&tags_after(&[], &["Audit".to_string()], true));
    assert_eq!(tags, vec!["audit"]);
    assert_eq!(search_query("weekly").as_deref(), Some("\"weekly\"*"));
    assert_eq!(UndoAction::of("notes", "content"), Some(UndoAction::Notes));
    assert_eq!(UndoAction::of("meeting", "deleted_at"), Some(UndoAction::Restore));
    assert!(!Tool::DeleteMeeting.read_only());
}

#[test]
fn catalog_descriptions_lose_the_notice_and_trailing_space() {
    assert_eq!(catalog_description(&format!("List meetings.  {NOTICE}")), "List meetings.");
    assert_eq!(catalog_description("Plain text.  "), "Plain text.");
}

#[test]
fn ids_resolve_by_full_id_or_a_unique_prefix() {
    let visible = vec!["0123456789abcdef".to_string(), "01234567ffffffff".to_string(), "abcdefgh00000000".to_string()];
    assert_eq!(resolve_id("xyz", Some("xyz".to_string()), &visible).unwrap(), "xyz");
    assert_eq!(resolve_id("abcdefgh", None, &visible).unwrap(), "abcdefgh00000000");
    match resolve_id("01234567", None, &visible) {
        Err(e @ ResolveError::Ambiguous(_)) => {
            assert_eq!(e.message(), "more than one meeting has an ID that starts with 01234567. Use the full ID.")
        }
        other => panic!("unexpected {other:?}"),
    }
    match resolve_id("abcdefg", None, &visible) {
        Err(e @ ResolveError::NotFound(_)) => assert_eq!(e.message(), "meeting not found: abcdefg"),
        other => panic!("unexpected {other:?}"),
    }
    assert_eq!(trim_id("  abc \n"), "abc");
}

fn listed(folder: Option<&str>, tags: &[&str], created_at: i64) -> Listed {
    Listed { folder: folder.map(str::to_string), tags: tags.iter().map(|t| t.to_string()).collect(), created_at }
}

#[test]
fn listings_filter_and_limit() {
    let ms = vec![
        listed(Some("Clients"), &["audit"], 300),
        listed(None, &["audit"], 200),
        listed(Some("clients"), &[], 100),
    ];
    let all = ListFilter { folder: None, tag: None, from: None, to: None };
    assert_eq!(list_meetings(&ms, &all, None), vec![0, 1, 2]);
    assert_eq!(list_meetings(&ms, &all, Some(0)), vec![0]);
    let folder = ListFilter { folder: Some("CLIENTS".to_string()), tag: None, from: None, to: None };
    assert_eq!(list_meetings(&ms, &folder, Some(50)), vec![0, 2]);
    let tag = ListFilter { folder: None, tag: Some("Audit".to_string()), from: Some(150), to: Some(300) };
    assert_eq!(list_meetings(&ms, &tag, None), vec![0, 1]);
}

#[test]
fn transcripts_page_with_clamped_sizes() {
    let p = page_of(None, None, 450);
    assert_eq!((p.page, p.size, p.from, p.to, p.pages), (1, 200, 0, 200, 3));
    let p = page_of(Some(3), Some(200), 450);
    assert_eq!((p.from, p.to), (400, 450));
    let p = page_of(Some(0), Some(1), 25);
    assert_eq!((p.page, p.size, p.from, p.to, p.pages), (1, 10, 0, 10, 3));
    let p = page_of(Some(9), Some(900), 0);
    assert_eq!((p.size, p.from, p.to, p.pages), (500, 0, 0, 1));
    let p = page_of(Some(i64::MAX), Some(500), 10);
    assert_eq!((p.from, p.to), (10, 10));
}

#[test]
fn tags_change_in_lowercase_without_space() {
    let tags = vec!["audit".to_string(), "q3".to_string()];
    assert_eq!(tags_after(&tags, &[" Q3 ".to_string()], false), vec!["audit".to_string()]);
    assert_eq!(tags_after(&tags, &[" New ".to_string()], true), vec!["audit".to_string(), "q3".to_string(), "new".to_string()]);
    assert!(!summary_has_text(" \n\t"));
    assert!(summary_has_text(" ok "));
}

#[test]
fn pages_hold_every_turn_once() {
    let total = 437usize;
    let size = 25i64;
    let first = page_of(Some(1), Some(size), total);
    let mut seen = vec![0u32; total];
    for p in 1..=first.pages as i64 {
        let page = page_of(Some(p), Some(size), total);
        for i in page.from..page.to {
            seen[i] += 1;
        }
        let next = page_of(Some(p + 1), Some(size), total);
        assert_eq!(page.to, next.from);
    }
    assert!(seen.iter().all(|&n| n == 1));
    assert_eq!(first.pages, 18);
}

#[test]
fn tools_change_parts_of_the_named_meeting_only() {
    assert_eq!(check_part(Part::Speaker, "m1", "m1"), Ok(()));
    assert_eq!(check_part(Part::Speaker, "m2", "m1"), Err(Part::Speaker));
    assert_eq!(check_part(Part::Turn, "m2", "m1"), Err(Part::Turn));
    assert_eq!(Part::Speaker.foreign_message(), "the speaker belongs to another meeting");
    assert_eq!(Part::Turn.foreign_message(), "the turn belongs to another meeting");
}

#[test]
fn searches_show_from_one_to_a_hundred_results() {
    assert_eq!(search_limit(None), 20);
    assert_eq!(search_limit(Some(0)), 1);
    assert_eq!(search_limit(Some(-5)), 1);
    assert_eq!(search_limit(Some(42)), 42);
    assert_eq!(search_limit(Some(1000)), 100);
}
