//! Session-token claims and their JSON rendering.

use chrono::Utc;
use drivetrain::jwt::JwtClaims;

#[test]
fn test_jwt_claims_serialization() {
    let claims = JwtClaims {
        sub: String::from("user-123"),
        athlete_id: String::from("i123456"),
        username: Some(String::from("johndoe")),
        iat: Utc::now().timestamp(),
        exp: (Utc::now() + chrono::Duration::days(7)).timestamp(),
        iss: String::from("https://api.ridelines.xyz"),
        aud: String::from("ridelines-web"),
    };

    let json = claims.to_json();
    assert!(json.contains("\"sub\":\"user-123\""));
    assert!(json.contains("\"athlete_id\":\"i123456\""));
    assert!(json.contains("\"username\":\"johndoe\""));
}

#[test]
fn claims_json_exact_rendering() {
    let claims = JwtClaims {
        sub: String::from("u1"),
        athlete_id: String::from("i1"),
        username: None,
        iat: 1700000000,
        exp: 1700604800,
        iss: String::from("issuer"),
        aud: String::from("aud"),
    };
    assert_eq!(
        claims.to_json(),
        "{\"sub\":\"u1\",\"athlete_id\":\"i1\",\"username\":null,\
         \"iat\":1700000000,\"exp\":1700604800,\"iss\":\"issuer\",\"aud\":\"aud\"}"
    );
}

#[test]
fn claims_json_is_valid_json() {
    let claims = JwtClaims {
        sub: String::from("user \"x\""),
        athlete_id: String::from("i1"),
        username: Some(String::from("a\\b")),
        iat: -5,
        exp: 0,
        iss: String::from("issuer"),
        aud: String::from("aud"),
    };
    let v: serde_json::Value = serde_json::from_str(&claims.to_json()).unwrap();
    assert_eq!(v["sub"], "user \"x\"");
    assert_eq!(v["username"], "a\\b");
    assert_eq!(v["iat"], -5);
    assert_eq!(v["exp"], 0);
}
