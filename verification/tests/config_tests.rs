use cw_images::account::{AccountConfig, AccountsConfig};
use cw_images::account::filter_accounts;
use cw_images::config::{get_accounts, ConfigError};

fn acc(ns: &str, id: &str, region: &str) -> AccountConfig {
    AccountConfig {
        namespace: String::from(ns),
        account_id: String::from(id),
        region: String::from(region),
    }
}

#[test]
fn load_two_accounts_in_order() {
    let text = "[[account]]\nnamespace = \"SomeDataProcessingProgram\"\naccount_id = \"111111111111\"\nregion = \"us-east-1\"\n\n[[account]]\nnamespace = \"Other\"\naccount_id = \"222222222222\"\nregion = \"eu-west-1\"\n";
    let cfg = get_accounts(Some(text)).expect("config should parse");
    assert_eq!(cfg.account.len(), 2);
    assert_eq!(cfg.account[0].namespace, "SomeDataProcessingProgram");
    assert_eq!(cfg.account[0].account_id, "111111111111");
    assert_eq!(cfg.account[0].region, "us-east-1");
    assert_eq!(cfg.account[1].namespace, "Other");
    assert_eq!(cfg.account[1].account_id, "222222222222");
    assert_eq!(cfg.account[1].region, "eu-west-1");
}

#[test]
fn load_tolerates_comments_blanks_and_whitespace() {
    let text = "# accounts\n\n[[account]]\n  namespace = \"Foo\"  \n\taccount_id\t=\t\"111\"\n# inline comment line\nregion = \"us-east-1\"\n";
    let cfg = get_accounts(Some(text)).expect("config should parse");
    assert_eq!(cfg.account.len(), 1);
    assert_eq!(cfg.account[0].namespace, "Foo");
    assert_eq!(cfg.account[0].account_id, "111");
    assert_eq!(cfg.account[0].region, "us-east-1");
}

#[test]
fn missing_region_is_a_parse_error_at_the_header_line() {
    let text = "[[account]]\nnamespace = \"Foo\"\naccount_id = \"111\"\n";
    let err = get_accounts(Some(text)).expect_err("missing region must not default");
    assert_eq!(err, ConfigError::ParseError { line: 1 });
}

#[test]
fn missing_field_in_middle_table_is_reported_at_its_header() {
    let text = "[[account]]\nnamespace = \"Foo\"\naccount_id = \"111\"\nregion = \"us-east-1\"\n[[account]]\nnamespace = \"Bar\"\nregion = \"us-west-2\"\n[[account]]\n";
    let err = get_accounts(Some(text)).expect_err("incomplete table must fail");
    assert_eq!(err, ConfigError::ParseError { line: 5 });
}

#[test]
fn unreadable_file_is_not_found() {
    let err = get_accounts(None).expect_err("no contents means not found");
    assert_eq!(err, ConfigError::NotFound);
}

#[test]
fn empty_text_is_an_empty_account_list() {
    let cfg = get_accounts(Some("")).expect("empty text is a valid empty config");
    assert_eq!(cfg.account.len(), 0);
}

#[test]
fn assignment_outside_any_table_is_rejected() {
    let text = "namespace = \"Foo\"\n";
    let err = get_accounts(Some(text)).expect_err("assignment before any header");
    assert_eq!(err, ConfigError::ParseError { line: 1 });
}

#[test]
fn duplicate_field_is_rejected() {
    let text = "[[account]]\nnamespace = \"Foo\"\nnamespace = \"Bar\"\n";
    let err = get_accounts(Some(text)).expect_err("duplicate field");
    assert_eq!(err, ConfigError::ParseError { line: 3 });
}

#[test]
fn empty_field_value_is_rejected() {
    let text = "[[account]]\nnamespace = \"\"\naccount_id = \"111\"\nregion = \"us-east-1\"\n";
    let err = get_accounts(Some(text)).expect_err("empty value");
    assert_eq!(err, ConfigError::ParseError { line: 2 });
}

#[test]
fn unquoted_value_is_rejected() {
    let text = "[[account]]\nnamespace = Foo\n";
    let err = get_accounts(Some(text)).expect_err("unquoted value");
    assert_eq!(err, ConfigError::ParseError { line: 2 });
}

#[test]
fn unknown_key_is_rejected() {
    let text = "[[account]]\nowner = \"me\"\n";
    let err = get_accounts(Some(text)).expect_err("unknown key");
    assert_eq!(err, ConfigError::ParseError { line: 2 });
}

#[test]
fn filter_without_pattern_keeps_all_in_order() {
    let cfg = AccountsConfig {
        account: vec![
            acc("Alpha", "1", "us-east-1"),
            acc("Beta", "2", "eu-west-1"),
            acc("Gamma", "3", "us-west-2"),
        ],
    };
    let out = filter_accounts(None, Some(cfg));
    assert_eq!(out.len(), 3);
    assert_eq!(out[0].namespace, "Alpha");
    assert_eq!(out[1].namespace, "Beta");
    assert_eq!(out[2].namespace, "Gamma");
}

#[test]
fn filter_keeps_matches_and_drops_the_rest() {
    let cfg = AccountsConfig {
        account: vec![
            acc("ItemDPP", "1", "us-east-1"),
            acc("Other", "2", "eu-west-1"),
            acc("MoreItemDPPStuff", "3", "us-west-2"),
        ],
    };
    let out = filter_accounts(Some("ItemDPP"), Some(cfg));
    assert_eq!(out.len(), 2);
    assert_eq!(out[0].account_id, "1");
    assert_eq!(out[1].account_id, "3");
}

#[test]
fn filter_is_case_sensitive_substring() {
    let cfg = AccountsConfig { account: vec![acc("Foo", "111", "us-east-1")] };
    let out = filter_accounts(Some("foo"), Some(cfg));
    assert_eq!(out.len(), 0);
}

#[test]
fn filter_of_absent_config_is_empty() {
    let out = filter_accounts(Some("anything"), None);
    assert!(out.is_empty());
    let out2 = filter_accounts(None, None);
    assert!(out2.is_empty());
}

#[test]
fn pattern_with_no_match_gives_empty_batch() {
    let text = "[[account]]\nnamespace = \"Foo\"\naccount_id = \"111\"\nregion = \"us-east-1\"\n";
    let cfg = get_accounts(Some(text)).expect("config should parse");
    let out = filter_accounts(Some("Ba"), Some(cfg));
    assert!(out.is_empty());
}

#[test]
fn crlf_line_endings_are_accepted() {
    let text = "[[account]]\r\nnamespace = \"Foo\"\r\naccount_id = \"111\"\r\nregion = \"us-east-1\"\r\n";
    let cfg = get_accounts(Some(text)).expect("config with CRLF endings should parse");
    assert_eq!(cfg.account.len(), 1);
    assert_eq!(cfg.account[0].region, "us-east-1");
}
