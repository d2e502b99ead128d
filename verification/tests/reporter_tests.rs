use vault_sync::config::SecretMapping;
use vault_sync::reporter::Reporter;
use vault_sync::styles::{AnsiPadding, AppStyles, TextStyle};

fn secret() -> SecretMapping {
    SecretMapping {
        name: "api".to_string(),
        id: "fake-id".to_string(),
        path: "services/api/.env".to_string(),
    }
}

#[test]
fn style_gallery() {
    let secret = secret();
    let color = true;
    println!();
    println!("  === Sync actions ===");
    println!("{}", Reporter::would_update(&secret, color));
    println!("{}", Reporter::updated(&secret, color));
    println!("{}", Reporter::up_to_date(&secret, color));
    println!("{}", Reporter::pushed(&secret, color));
    println!("{}", Reporter::retrying(&secret, 1, 3, color));
    println!();
    println!("  === Update actions ===");
    println!("{}", Reporter::current_version("0.5.4", color));
    println!("{}", Reporter::latest_version("0.6.0", color));
    println!("{}", Reporter::already_up_to_date(color));
    println!(
        "{}",
        Reporter::downloading(
            "https://github.com/kyeotic/vault-sync/releases/download/v0.6.0/vault-sync-x86_64-unknown-linux-musl.tar.gz",
            color,
        )
    );
    println!("{}", Reporter::self_updated("0.6.0", color));
}

#[test]
fn secret_is_shown_with_dimmed_path() {
    assert_eq!(Reporter::format_secret(&secret(), true), "api \u{1b}[2m(services/api/.env)\u{1b}[0m");
}

#[test]
fn secret_is_shown_plain_without_color() {
    assert_eq!(Reporter::format_secret(&secret(), false), "api (services/api/.env)");
}

#[test]
fn plain_lines() {
    let s = secret();
    let shown = "api (services/api/.env)";
    assert_eq!(Reporter::would_update(&s, false), format!(" Would update {shown}"));
    assert_eq!(Reporter::updated(&s, false), format!("      Updated {shown}"));
    assert_eq!(Reporter::up_to_date(&s, false), format!("   Up to date {shown}"));
    assert_eq!(Reporter::pushed(&s, false), format!("       Pushed {shown}"));
    assert_eq!(Reporter::retrying(&s, 2, 10, false), format!("     Retrying {shown} (429, attempt 2/10)"));
    assert_eq!(Reporter::current_version("0.5.4", false), "      Current 0.5.4");
    assert_eq!(Reporter::latest_version("0.6.0", false), "       Latest 0.6.0");
    assert_eq!(Reporter::already_up_to_date(false), " Already up to date.");
    assert_eq!(Reporter::downloading("u", false), "  Downloading u");
    assert_eq!(Reporter::self_updated("0.6.0", false), "      Updated to 0.6.0");
}

#[test]
fn colored_labels_keep_the_column() {
    let s = secret();
    assert_eq!(
        Reporter::updated(&s, true),
        "      \u{1b}[32;1mUpdated\u{1b}[0m api \u{1b}[2m(services/api/.env)\u{1b}[0m"
    );
    assert_eq!(Reporter::already_up_to_date(true), " \u{1b}[36;1mAlready up to date.\u{1b}[0m");
    assert_eq!(
        Reporter::would_update(&s, true),
        " \u{1b}[33;1mWould update\u{1b}[0m api \u{1b}[2m(services/api/.env)\u{1b}[0m"
    );
    assert_eq!(
        Reporter::retrying(&s, 1, 3, true),
        "     \u{1b}[34;1mRetrying\u{1b}[0m api \u{1b}[2m(services/api/.env)\u{1b}[0m (429, attempt 1/3)"
    );
}

#[test]
fn styles_and_padding() {
    assert_eq!("x".updated(true), "\u{1b}[32;1mx\u{1b}[0m");
    assert_eq!("x".up_to_date(true), "\u{1b}[36;1mx\u{1b}[0m");
    assert_eq!("x".waiting(true), "\u{1b}[34;1mx\u{1b}[0m");
    assert_eq!("x".would_update(true), "\u{1b}[33;1mx\u{1b}[0m");
    assert_eq!("x".field_label(true), "\u{1b}[1mx\u{1b}[0m");
    assert_eq!("x".style_if_supported(TextStyle::Bold, false), "x");
    assert_eq!("ab".align_right(4), "  ab");
    assert_eq!("abcdef".align_right(4), "abcdef");
    assert_eq!("\u{1b}[1mab\u{1b}[0m".align_right(4), "  \u{1b}[1mab\u{1b}[0m");
}

#[test]
fn big_numbers_in_retry_line() {
    let line = Reporter::retrying(&secret(), 4294967294, 4294967295, false);
    assert!(line.ends_with("(429, attempt 4294967294/4294967295)"));
    let line = Reporter::retrying(&secret(), 0, 100, false);
    assert!(line.ends_with("(429, attempt 0/100)"));
}
