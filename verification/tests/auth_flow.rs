use auth_core::auth::{
    authorize_request, authorize_with_credential, extract_bearer, protected,
    select_credential_query, AuthError, AuthPayload, Credential, CredentialQuery,
};
use auth_core::claims::Claims;
use auth_core::keys::Keys;
use auth_core::password::{verify_password, StringPassword};
use auth_core::token::{issue, issue_at, issue_from, now_unix, verify_token, TokenError};
use auth_core::user::{UserPassword, UserPasswordProperties};

fn test_keys() -> Keys {
    Keys::new("Free as in Freedom".as_bytes())
}

#[test]
fn fixed_salt_hash_is_deterministic() {
    let p1: UserPassword = StringPassword::new("s3cret".to_string());
    let p2: StringPassword<UserPasswordProperties> = StringPassword::new("s3cret".to_string());
    let h1 = p1.hash_with_salt().expect("cost 12 lies in range");
    let h2 = p2.hash_with_salt().expect("cost 12 lies in range");
    assert_eq!(h1, h2);
    assert_eq!(h1.len(), 60);
    assert!(h1.starts_with("$2b$12$"));
}

#[test]
fn random_salt_hashes_differ_but_both_verify() {
    let p: UserPassword = StringPassword::new("s3cret".to_string());
    let h1 = p.hash_with_random_salt().expect("randomness source works here");
    let h2 = p.hash_with_random_salt().expect("randomness source works here");
    assert_ne!(h1, h2);
    assert!(verify_password("s3cret", &h1).unwrap());
    assert!(verify_password("s3cret", &h2).unwrap());
}

#[test]
fn verify_accepts_right_and_rejects_wrong_password() {
    let p: UserPassword = StringPassword::new("s3cret".to_string());
    let h = p.hash_with_salt().expect("cost 12 lies in range");
    assert_eq!(verify_password("s3cret", &h).unwrap(), true);
    assert_eq!(verify_password("not-it", &h).unwrap(), false);
    assert!(verify_password("s3cret", "not a bcrypt hash").is_err());
}

#[test]
fn token_round_trip_returns_original_claims() {
    let keys = test_keys();
    let now = now_unix();
    let claims = Claims { id: 5, name: "alice".to_string(), exp: now + 3600 };
    let token = issue_at(&keys, &claims);
    let back = verify_token(&keys, &token, now).expect("fresh token verifies");
    assert_eq!(back.id, 5);
    assert_eq!(back.name, "alice");
    assert_eq!(back.exp, now + 3600);
}

#[test]
fn issued_token_is_a_jwt_the_reference_crate_accepts() {
    let keys = test_keys();
    let now = now_unix();
    let claims = Claims { id: 9, name: "alice".to_string(), exp: now + 3600 };
    let token = issue_at(&keys, &claims);
    let decoding = jsonwebtoken::DecodingKey::from_secret("Free as in Freedom".as_bytes());
    let validation = jsonwebtoken::Validation::new(jsonwebtoken::Algorithm::HS256);
    let data = jsonwebtoken::decode::<serde_json::Value>(&token, &decoding, &validation)
        .expect("the reference crate accepts the issued token");
    assert_eq!(data.claims["id"], serde_json::Value::from(9));
    assert_eq!(data.claims["name"], serde_json::Value::from("alice"));
    assert_eq!(data.claims["exp"], serde_json::Value::from(now + 3600));
}

#[test]
fn expired_token_fails_with_expiry_even_though_signed() {
    let keys = test_keys();
    let now = now_unix();
    // issued with a ttl of -1: already lapsed
    let claims = Claims { id: 5, name: "alice".to_string(), exp: now - 1 };
    let token = issue_at(&keys, &claims);
    assert_eq!(verify_token(&keys, &token, now), Err(TokenError::Expired));
    // through the request gate the reason is collapsed
    let header = format!("Bearer {token}");
    let gate = authorize_request(&keys, Some(&header), now);
    assert!(matches!(gate, Err(AuthError::InvalidToken)));
}

#[test]
fn flipping_any_signature_byte_breaks_the_token() {
    let keys = test_keys();
    let now = now_unix();
    let claims = Claims { id: 5, name: "alice".to_string(), exp: now + 3600 };
    let token = issue_at(&keys, &claims);
    let bytes = token.as_bytes();
    let sig_start = token.rfind('.').unwrap() + 1;
    assert_eq!(bytes.len() - sig_start, 43);
    for k in sig_start..bytes.len() {
        let mut tampered = bytes.to_vec();
        tampered[k] ^= 1;
        let tampered = String::from_utf8(tampered).unwrap();
        assert!(
            verify_token(&keys, &tampered, now).is_err(),
            "a flipped signature byte must not verify"
        );
    }
}

#[test]
fn wrong_secret_does_not_verify() {
    let keys = test_keys();
    let other = Keys::new("another secret".as_bytes());
    let now = now_unix();
    let claims = Claims { id: 5, name: "alice".to_string(), exp: now + 3600 };
    let token = issue_at(&keys, &claims);
    assert_eq!(
        verify_token(&other, &token, now),
        Err(TokenError::InvalidSignature)
    );
}

#[test]
fn malformed_tokens_are_malformed() {
    let keys = test_keys();
    let now = now_unix();
    assert_eq!(
        verify_token(&keys, "no dots at all", now),
        Err(TokenError::Malformed)
    );
    assert_eq!(verify_token(&keys, "a.b", now), Err(TokenError::Malformed));
    assert_eq!(
        verify_token(&keys, "a.b.c.d", now),
        Err(TokenError::Malformed)
    );
}

#[test]
fn unreadable_stored_hash_is_a_server_fault_not_a_mismatch() {
    let keys = test_keys();
    let now = now_unix();
    let broken = Credential {
        id: 1,
        name: "alice".to_string(),
        password_hash: "not a bcrypt hash".to_string(),
    };
    let r = authorize_with_credential(&keys, "s3cret", Some(broken), now);
    match r {
        Err(e) => {
            assert!(matches!(e, AuthError::HashFailure));
            assert_eq!(e.status_code(), 500);
        }
        Ok(_) => panic!("an unreadable stored hash must not grant a token"),
    }
}

#[test]
fn issue_from_succeeds_exactly_when_the_expiry_fits() {
    let keys = test_keys();
    let token = issue_from(&keys, 3, "carol".to_string(), 0, 1000).expect("sum fits");
    let back = verify_token(&keys, &token, 999).expect("not yet lapsed at 999");
    assert_eq!(back.exp, 1000);
    assert!(issue_from(&keys, 3, "carol".to_string(), 1, i64::MAX).is_none());
    assert!(issue_from(&keys, 3, "carol".to_string(), -1, i64::MIN).is_none());
}

#[test]
fn issue_with_ttl_yields_a_verifiable_token() {
    let keys = test_keys();
    let token = issue(&keys, 2, "bob".to_string(), 3600).expect("no overflow");
    let back = verify_token(&keys, &token, now_unix()).expect("fresh token verifies");
    assert_eq!(back.id, 2);
    assert_eq!(back.name, "bob");
}

#[test]
fn select_credential_query_cases() {
    let empty_password = AuthPayload {
        id: Some(1),
        name: Some("alice".to_string()),
        password: String::new(),
    };
    assert!(matches!(
        select_credential_query(&empty_password),
        Err(AuthError::MissingCredentials)
    ));
    let by_id = AuthPayload { id: Some(4), name: None, password: "pw".to_string() };
    assert!(matches!(
        select_credential_query(&by_id),
        Ok(CredentialQuery::ById(4))
    ));
    let by_name = AuthPayload {
        id: None,
        name: Some("alice".to_string()),
        password: "pw".to_string(),
    };
    match select_credential_query(&by_name) {
        Ok(CredentialQuery::ByName(n)) => assert_eq!(n, "alice"),
        _ => panic!("expected the lookup by name"),
    }
    let nothing = AuthPayload { id: None, name: None, password: "pw".to_string() };
    assert!(matches!(
        select_credential_query(&nothing),
        Err(AuthError::MissingToken)
    ));
}

#[test]
fn error_statuses_and_messages() {
    assert_eq!(AuthError::WrongCredentials.status_code(), 401);
    assert_eq!(AuthError::MissingCredentials.status_code(), 400);
    assert_eq!(AuthError::TokenCreation.status_code(), 500);
    assert_eq!(AuthError::InvalidToken.status_code(), 400);
    assert_eq!(AuthError::MissingToken.status_code(), 400);
    assert_eq!(AuthError::HashFailure.status_code(), 500);
    assert_eq!(AuthError::WrongCredentials.message(), "Wrong credentials");
    assert_eq!(AuthError::MissingCredentials.message(), "Missing credentials");
    assert_eq!(AuthError::TokenCreation.message(), "Token creation error");
    assert_eq!(AuthError::InvalidToken.message(), "Invalid token");
    assert_eq!(AuthError::MissingToken.message(), "Missing token");
    assert_eq!(AuthError::HashFailure.message(), "Internal error");
}

#[test]
fn extract_bearer_cases() {
    assert!(matches!(
        extract_bearer(None),
        Err(AuthError::MissingToken)
    ));
    assert!(matches!(
        extract_bearer(Some("Basic abc")),
        Err(AuthError::InvalidToken)
    ));
    assert!(matches!(
        extract_bearer(Some("bearer abc")),
        Err(AuthError::InvalidToken)
    ));
    assert_eq!(extract_bearer(Some("Bearer abc")).unwrap(), "abc");
}

#[test]
fn register_login_protected_scenario() {
    let keys = test_keys();
    let now = now_unix();

    // register alice: hash the password under the user policy, store the row
    let password: UserPassword = StringPassword::new("s3cret".to_string());
    let stored_hash = password.hash_with_random_salt().expect("randomness source works here");
    let store: Vec<Credential> = vec![Credential {
        id: 1,
        name: "alice".to_string(),
        password_hash: stored_hash,
    }];

    // login with the right password
    let payload = AuthPayload {
        id: None,
        name: Some("alice".to_string()),
        password: "s3cret".to_string(),
    };
    let query = select_credential_query(&payload).expect("password present, name present");
    let looked_up = match &query {
        CredentialQuery::ByName(name) => store.iter().find(|c| &c.name == name),
        CredentialQuery::ById(id) => store.iter().find(|c| c.id == *id),
    };
    let body = authorize_with_credential(
        &keys,
        &payload.password,
        looked_up.map(|c| Credential {
            id: c.id,
            name: c.name.clone(),
            password_hash: c.password_hash.clone(),
        }),
        now,
    )
    .expect("right password grants a token");
    assert_eq!(body.token_type, "Bearer");
    assert!(!body.access_token.is_empty());

    // the protected route with that token
    let header = format!("Bearer {}", body.access_token);
    let claims = authorize_request(&keys, Some(&header), now).expect("granted token passes");
    let page = protected(&claims).expect("expiry lies in chrono's range");
    assert!(page.contains("alice"));
    assert!(page.contains("Welcome to the protected area :)"));

    // the protected route without a header: a 400-class rejection
    let refused = authorize_request(&keys, None, now);
    match refused {
        Err(e) => assert_eq!(e.status_code(), 400),
        Ok(_) => panic!("no header must not pass"),
    }

    // login with the wrong password: a 401
    let wrong = authorize_with_credential(
        &keys,
        "not-it",
        Some(Credential {
            id: 1,
            name: "alice".to_string(),
            password_hash: store[0].password_hash.clone(),
        }),
        now,
    );
    match wrong {
        Err(e) => {
            assert!(matches!(e, AuthError::WrongCredentials));
            assert_eq!(e.status_code(), 401);
        }
        Ok(_) => panic!("wrong password must not pass"),
    }

    // a failed lookup answers like a bad token, not like a missing user
    let unknown = authorize_with_credential(&keys, "s3cret", None, now);
    assert!(matches!(unknown, Err(AuthError::InvalidToken)));
}

#[test]
fn display_string_shows_id_name_and_expiry() {
    let claims = Claims { id: 12, name: "alice".to_string(), exp: 0 };
    let text = claims.display_string().expect("timestamp zero lies in range");
    assert_eq!(
        text,
        "ID: 12\nName: alice\nExpire: 1970-01-01 08:00:00 +08:00"
    );
    let out_of_range = Claims { id: 12, name: "alice".to_string(), exp: i64::MAX };
    assert!(out_of_range.display_string().is_none());
}

#[test]
fn extreme_claims_survive_the_round_trip() {
    let keys = test_keys();
    let claims = Claims { id: i32::MIN, name: String::new(), exp: i64::MAX };
    let token = issue_at(&keys, &claims);
    let back = verify_token(&keys, &token, 0).expect("maximal expiry verifies");
    assert_eq!(back.id, i32::MIN);
    assert_eq!(back.name, "");
    assert_eq!(back.exp, i64::MAX);
    let claims2 = Claims { id: i32::MAX, name: "\u{7f}\u{80}\u{10FFFF}".to_string(), exp: 1 };
    let token2 = issue_at(&keys, &claims2);
    let back2 = verify_token(&keys, &token2, 0).expect("exp 1 verifies at time 0");
    assert_eq!(back2.name, "\u{7f}\u{80}\u{10FFFF}");
}
