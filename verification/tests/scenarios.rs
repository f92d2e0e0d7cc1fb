use aicasa::paths::validate_project_name;
use aicasa::repository::{parse_repositories, Repository};
use aicasa::theme::{render_banner, Theme, BLUE, PINK, YELLOW};

#[test]
fn parses_comma_separated_github_repositories() {
    let repositories =
        parse_repositories(&["paradise-runner/toast,paradise-runner/kaleidoscope".into()])
            .unwrap();
    assert_eq!(
        repositories,
        vec![
            Repository {
                source: "https://github.com/paradise-runner/toast.git".into(),
                directory: "toast".into()
            },
            Repository {
                source: "https://github.com/paradise-runner/kaleidoscope.git".into(),
                directory: "kaleidoscope".into()
            }
        ]
    );
}

#[test]
fn refuses_nested_project_names() {
    assert!(validate_project_name("../elsewhere").is_err());
    assert!(validate_project_name("nested/project").is_err());
    assert!(validate_project_name("project").is_ok());
}

#[test]
fn renders_a_plain_aicasa_banner_without_escape_codes() {
    let banner = render_banner(&Theme { enabled: false });

    assert!(banner.starts_with(" █████╗ ██╗ ██████╗"));
    assert_eq!(banner.lines().count(), 6);
    assert!(!banner.contains('\u{1b}'));
}

#[test]
fn renders_a_pastel_aicasa_banner_when_color_is_enabled() {
    let banner = render_banner(&Theme { enabled: true });

    assert!(banner.contains(&format!("\u{1b}[38;2;{BLUE}m")));
    assert!(banner.contains(&format!("\u{1b}[38;2;{PINK}m")));
    assert!(banner.contains(&format!("\u{1b}[38;2;{YELLOW}m")));
}
