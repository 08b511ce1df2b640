use protostar::application::{spawn_decision, strip_field_codes, Application, LaunchError};
use protostar::xdg::parse_desktop_file;

#[test]
fn test_field_code_stripping() {
    assert_eq!(strip_field_codes("app %f --flag %U"), "app  --flag ".to_string());
    assert_eq!(strip_field_codes("plain"), "plain".to_string());
    assert_eq!(strip_field_codes("%f%F%u%U%d%D%n%N%i%c%k%v%m"), "".to_string());
    // A percent sign not followed by a field code stays.
    assert_eq!(strip_field_codes("50%% off %z %"), "50%% off %z %".to_string());
    assert_eq!(strip_field_codes("%%f"), "%".to_string());
}

#[test]
fn test_launch_command_requires_exec() {
    let no_exec = parse_desktop_file("a.desktop", "[Desktop Entry]\nName=A");
    let app = Application::create(no_exec).unwrap();
    assert_eq!(app.launch_command(), Err(LaunchError::DoesNotExist));

    let with_exec = parse_desktop_file("b.desktop", "[Desktop Entry]\nName=B\nExec=run %f now");
    let app = Application::create(with_exec).unwrap();
    assert_eq!(app.launch_command(), Ok("run  now".to_string()));
}

#[test]
fn test_spawn_decision_needs_both_handshake_results() {
    let command = "run now".to_string();
    let token = Some("tok123".to_string());
    let env = Some(vec![
        ("WAYLAND_DISPLAY".to_string(), "wayland-9".to_string()),
        ("OTHER".to_string(), "x".to_string()),
    ]);

    let spec = spawn_decision(&command, &token, &env).unwrap();
    assert_eq!(spec.shell_command, "run now".to_string());
    assert_eq!(spec.env.len(), 3);
    assert_eq!(spec.env[0], ("WAYLAND_DISPLAY".to_string(), "wayland-9".to_string()));
    assert_eq!(spec.env[1], ("OTHER".to_string(), "x".to_string()));
    assert_eq!(
        spec.env[2],
        ("STARDUST_STARTUP_TOKEN".to_string(), "tok123".to_string())
    );

    assert!(spawn_decision(&command, &None, &env).is_none());
    assert!(spawn_decision(&command, &token, &None).is_none());
    assert!(spawn_decision(&command, &None, &None).is_none());
}
