use qreview::auth::{cookie, guard, new_token, Admission, TokenQuery, COOKIE};

fn query(t: Option<&str>) -> TokenQuery {
    TokenQuery { t: t.map(str::to_owned) }
}

#[test]
fn the_cookie_is_found_among_the_others() {
    assert_eq!(cookie("a=1; qreview_token=abc; b=2").as_deref(), Some("abc"));
    assert_eq!(cookie("  qreview_token=x=y  ").as_deref(), Some("x=y"));
    assert_eq!(cookie("other=1; broken; qreview_tokenx=1"), None);
    assert_eq!(cookie(""), None);
}

#[test]
fn a_request_without_the_token_is_refused() {
    assert!(matches!(guard("secret", &query(None), None), Admission::Refused));
    assert!(matches!(guard("secret", &query(Some("wrong")), Some("also")), Admission::Refused));
}

#[test]
fn the_token_in_the_query_hands_over_a_cookie() {
    match guard("secret", &query(Some("secret")), None) {
        Admission::PassAndRemember(line) => {
            assert_eq!(line, format!("{COOKIE}=secret; Path=/; SameSite=Strict; HttpOnly"))
        }
        _ => panic!("the cookie is handed over"),
    }
}

#[test]
fn the_cookie_alone_is_enough_afterwards() {
    assert!(matches!(guard("secret", &query(None), Some("secret")), Admission::Pass));
    assert!(matches!(guard("secret", &query(Some("secret")), Some("secret")), Admission::Pass));
}

#[test]
fn a_token_is_sixty_four_hex_digits_and_new_each_time() {
    let one = new_token().unwrap();
    let two = new_token().unwrap();

    assert_eq!(one.len(), 64);
    assert!(one.chars().all(|c| c.is_ascii_hexdigit()));
    assert_ne!(one, two);
}

#[test]
fn a_token_is_its_bytes_in_hexadecimal() {
    assert_eq!(qreview::auth::token_of(&[0xde, 0xad, 0x01]), "dead01");
}
