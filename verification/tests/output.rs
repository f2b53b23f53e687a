use asimov_ftp_module::output::{display_style, DisplayStyle};

#[test]
fn verbosity_shows_more() {
    assert_eq!(display_style(0), DisplayStyle::Inline);
    assert_eq!(display_style(1), DisplayStyle::Oneliner);
    assert_eq!(display_style(2), DisplayStyle::Concise);
    assert_eq!(display_style(3), DisplayStyle::Detailed);
    assert_eq!(display_style(255), DisplayStyle::Detailed);
}
