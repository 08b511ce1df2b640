use protostar::application::{visible_entries, Application, LaunchError};
use protostar::xdg::{get_app_dirs, get_data_dirs, get_desktop_files, parse_desktop_file};

#[test]
fn test_parse_desktop_file() {
    let data = "[Desktop Entry]\nName=Test\nExec=test\nCategories=A;B;C\nIcon=test.png";
    let desktop_file = parse_desktop_file("test.desktop", data);

    assert_eq!(desktop_file.name, Some("Test".to_string()));
    assert_eq!(desktop_file.command, Some("test".to_string()));
    assert_eq!(
        desktop_file.categories,
        vec!["A".to_string(), "B".to_string(), "C".to_string()]
    );
    assert_eq!(desktop_file.icon, Some("test.png".to_string()));
    assert!(!desktop_file.no_display);
}

#[test]
fn test_categories_round_trip() {
    let data = "[Desktop Entry]\nCategories=A;B;;C;";
    let desktop_file = parse_desktop_file("x.desktop", data);
    assert_eq!(
        desktop_file.categories,
        vec!["A".to_string(), "B".to_string(), "C".to_string()]
    );
}

#[test]
fn test_parse_skips_comments_and_other_sections() {
    let data = "# a comment\n\n[Desktop Action Open]\nName=Hidden name\nExec=wrong\n[Desktop Entry]\nName=Real\nExec=run\n[Other]\nIcon=wrong.png";
    let desktop_file = parse_desktop_file("y.desktop", data);
    assert_eq!(desktop_file.name, Some("Real".to_string()));
    assert_eq!(desktop_file.command, Some("run".to_string()));
    assert_eq!(desktop_file.icon, None);
}

#[test]
fn test_parse_no_display_values() {
    let hidden = parse_desktop_file("a.desktop", "[Desktop Entry]\nNoDisplay=true");
    assert!(hidden.no_display);
    let shown = parse_desktop_file("b.desktop", "[Desktop Entry]\nNoDisplay=false");
    assert!(!shown.no_display);
    let odd = parse_desktop_file("c.desktop", "[Desktop Entry]\nNoDisplay=yes");
    assert!(!odd.no_display);
    let absent = parse_desktop_file("d.desktop", "[Desktop Entry]\nName=N");
    assert!(!absent.no_display);
}

#[test]
fn test_parse_crlf_lines() {
    let data = "[Desktop Entry]\r\nName=Crlf\r\nExec=run\r\n";
    let desktop_file = parse_desktop_file("z.desktop", data);
    assert_eq!(desktop_file.name, Some("Crlf".to_string()));
    assert_eq!(desktop_file.command, Some("run".to_string()));
}

#[test]
fn test_no_display_entries_are_excluded() {
    let shown = parse_desktop_file("s.desktop", "[Desktop Entry]\nName=Shown\nExec=s");
    let hidden = parse_desktop_file("h.desktop", "[Desktop Entry]\nName=Hidden\nExec=h\nNoDisplay=true");
    let entries = vec![shown, hidden];

    let visible = visible_entries(&entries);
    assert_eq!(visible.len(), 1);
    assert_eq!(visible[0].name, Some("Shown".to_string()));

    let hidden_again = parse_desktop_file("h.desktop", "[Desktop Entry]\nName=Hidden\nExec=h\nNoDisplay=true");
    assert!(matches!(
        Application::create(hidden_again),
        Err(LaunchError::DoesNotExist)
    ));
    let shown_again = parse_desktop_file("s.desktop", "[Desktop Entry]\nName=Shown\nExec=s");
    assert!(Application::create(shown_again).is_ok());
}

#[test]
fn test_xdg_dir_composition() {
    let dirs = get_data_dirs(&Some("/a:/b".to_string()), "/home/u");
    assert_eq!(
        dirs,
        vec![
            "/a".to_string(),
            "/b".to_string(),
            "/home/u/.local/share".to_string()
        ]
    );

    let defaults = get_data_dirs(&None, "/home/u");
    assert_eq!(
        defaults,
        vec![
            "/usr/local/share".to_string(),
            "/usr/share".to_string(),
            "/home/u/.local/share".to_string()
        ]
    );

    let apps = get_app_dirs(&dirs);
    assert_eq!(
        apps,
        vec![
            "/a/applications".to_string(),
            "/b/applications".to_string(),
            "/home/u/.local/share/applications".to_string()
        ]
    );
}

#[test]
fn test_desktop_file_listing_filter() {
    let listing = vec![
        "/apps/foo.desktop".to_string(),
        "/apps/bar.png".to_string(),
        "/apps/.desktop".to_string(),
        "/apps/baz.desktop".to_string(),
        "/apps/readme".to_string(),
    ];
    let picked = get_desktop_files(&listing);
    assert_eq!(
        picked,
        vec!["/apps/foo.desktop".to_string(), "/apps/baz.desktop".to_string()]
    );
}
