use protostar::application::Application;
use protostar::icon::{icon_search_dirs, select_icon, Icon, IconType, SizedPath};
use protostar::xdg::parse_desktop_file;

#[test]
fn test_icon_from_path_classification() {
    let png = Icon::from_path("/t/krita.png".to_string(), 32).unwrap();
    assert_eq!(png.icon_type, IconType::Png);
    assert_eq!(png.path, "/t/krita.png".to_string());
    assert_eq!(png.size, 32);

    let svg = Icon::from_path("/t/krita.svg".to_string(), 0).unwrap();
    assert_eq!(svg.icon_type, IconType::Svg);

    let glb = Icon::from_path("/t/krita.glb".to_string(), 0).unwrap();
    assert_eq!(glb.icon_type, IconType::Gltf);
    let gltf = Icon::from_path("/t/krita.gltf".to_string(), 0).unwrap();
    assert_eq!(gltf.icon_type, IconType::Gltf);

    assert!(Icon::from_path("/t/krita.xpm".to_string(), 32).is_none());
    assert!(Icon::from_path("/t/krita".to_string(), 32).is_none());
}

#[test]
fn test_icon_search_dirs_layout() {
    let dirs = icon_search_dirs(&vec!["/usr/share".to_string()], "hicolor");
    let got: Vec<(String, u16)> = dirs.iter().map(|d| (d.path.clone(), d.size)).collect();
    assert_eq!(
        got,
        vec![
            ("/usr/share/icons/hicolor/64x64/apps".to_string(), 64),
            ("/usr/share/icons/hicolor/32x32/apps".to_string(), 32),
            ("/usr/share/icons/hicolor/scalable/apps".to_string(), 0),
            ("/usr/share/icons/hicolor/128x128/apps".to_string(), 128),
        ]
    );
}

#[test]
fn test_icon_unset_resolves_empty() {
    let entry = parse_desktop_file("no_icon.desktop", "[Desktop Entry]\nName=X\nExec=x");
    assert_eq!(entry.icon, None);
    let listing = vec![SizedPath { path: "/usr/share/icons/hicolor/64x64/apps/x.png".to_string(), size: 64 }];
    let candidates = entry.get_raw_icons(false, &listing);
    assert!(candidates.is_empty());
    assert!(select_icon(&candidates, false).is_none());
    assert!(select_icon(&candidates, true).is_none());
}

#[test]
fn test_get_raw_icons_filters_by_stem_and_type() {
    let entry = parse_desktop_file("k.desktop", "[Desktop Entry]\nName=K\nIcon=krita");
    let listing = vec![
        SizedPath { path: "/i/64x64/apps/krita.png".to_string(), size: 64 },
        SizedPath { path: "/i/64x64/apps/other.png".to_string(), size: 64 },
        SizedPath { path: "/i/scalable/apps/krita.svg".to_string(), size: 0 },
        SizedPath { path: "/i/32x32/apps/krita.xpm".to_string(), size: 32 },
        SizedPath { path: "/i/128x128/apps/krita.glb".to_string(), size: 128 },
    ];
    let icons = entry.get_raw_icons(false, &listing);
    assert_eq!(icons.len(), 3);
    assert_eq!(icons[0].icon_type, IconType::Png);
    assert_eq!(icons[0].size, 64);
    assert_eq!(icons[1].icon_type, IconType::Svg);
    assert_eq!(icons[1].size, 0);
    assert_eq!(icons[2].icon_type, IconType::Gltf);
    assert_eq!(icons[2].size, 0);
}

#[test]
fn test_local_icon_wins_when_present() {
    let entry = parse_desktop_file("/apps/k.desktop", "[Desktop Entry]\nIcon=own.png");
    assert_eq!(entry.local_icon_path(), Some("/apps/own.png".to_string()));
    let listing = vec![SizedPath { path: "/i/64x64/apps/own.png".to_string(), size: 64 }];
    let icons = entry.get_raw_icons(true, &listing);
    assert_eq!(icons.len(), 1);
    assert_eq!(icons[0].path, "/apps/own.png".to_string());
    assert_eq!(icons[0].size, 128);

    let absolute = parse_desktop_file("/apps/k.desktop", "[Desktop Entry]\nIcon=/pix/own.png");
    assert_eq!(absolute.local_icon_path(), Some("/pix/own.png".to_string()));
}

#[test]
fn test_icon_selection_with_3d_preference() {
    let candidates = vec![
        Icon { icon_type: IconType::Png, path: "/i/a.png".to_string(), size: 128 },
        Icon { icon_type: IconType::Svg, path: "/i/a.svg".to_string(), size: 0 },
        Icon { icon_type: IconType::Gltf, path: "/i/a.glb".to_string(), size: 0 },
    ];
    let with_3d = select_icon(&candidates, true).unwrap();
    assert_eq!(with_3d.icon_type, IconType::Gltf);
    let without_3d = select_icon(&candidates, false).unwrap();
    assert_eq!(without_3d.icon_type, IconType::Png);
    assert_eq!(without_3d.size, 128);
}

#[test]
fn test_icon_selection_ties_take_last() {
    let candidates = vec![
        Icon { icon_type: IconType::Svg, path: "/i/first.svg".to_string(), size: 0 },
        Icon { icon_type: IconType::Svg, path: "/i/second.svg".to_string(), size: 0 },
    ];
    let picked = select_icon(&candidates, false).unwrap();
    assert_eq!(picked.path, "/i/second.svg".to_string());

    let no_3d = select_icon(&candidates, true).unwrap();
    assert_eq!(no_3d.path, "/i/second.svg".to_string());
}

#[test]
fn test_application_icon_delegates_to_selection() {
    let entry = parse_desktop_file("a.desktop", "[Desktop Entry]\nName=A\nExec=a\nIcon=a");
    let app = Application::create(entry).unwrap();
    let candidates = vec![
        Icon { icon_type: IconType::Png, path: "/i/a.png".to_string(), size: 64 },
        Icon { icon_type: IconType::Png, path: "/i/b.png".to_string(), size: 128 },
    ];
    let picked = app.icon(&candidates, false).unwrap();
    assert_eq!(picked.path, "/i/b.png".to_string());
    assert_eq!(app.name(), &Some("A".to_string()));
    assert!(app.categories().is_empty());
}
