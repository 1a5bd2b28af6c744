use zkp_login::client::ClientIdentity;
use zkp_login::encoding::decode_hex;
use zkp_login::registry::{Identifier, KeyRegistry, LookupError, UserId};

const PUBLIC: &str = "02984225585d2285c138033d6140e3cef8b91859704e53c313f8b636ba4f967649";
const BASE_POINT: &str = "036b17d1f2e12c4247f8bce6e563a440f277037d812deb33a0f4a13945d898c296";

fn hex(text: &str) -> Vec<u8> {
    decode_hex(text.as_bytes()).unwrap()
}

fn username(name: &str) -> Identifier {
    Identifier::Username(name.to_string())
}

fn email(address: &str) -> Identifier {
    Identifier::Email(address.to_string())
}

#[test]
fn lookup_finds_by_username_and_by_email() {
    let mut registry = KeyRegistry::new();
    let c1 = ClientIdentity(1);
    assert_eq!(registry.register(c1, "alice", "alice@example.com", &hex(PUBLIC)), Some(UserId(0)));
    assert_eq!(registry.register(c1, "bob", "bob@example.com", &hex(BASE_POINT)), Some(UserId(1)));
    let (user, key) = registry.lookup(c1, &username("alice")).unwrap();
    assert_eq!(user, UserId(0));
    assert_eq!(key.as_bytes(), hex(PUBLIC).as_slice());
    let (user, key) = registry.lookup(c1, &email("bob@example.com")).unwrap();
    assert_eq!(user, UserId(1));
    assert_eq!(key.as_bytes(), hex(BASE_POINT).as_slice());
}

#[test]
fn lookup_does_not_cross_clients() {
    let mut registry = KeyRegistry::new();
    let a = ClientIdentity(1);
    let b = ClientIdentity(2);
    assert!(registry.register(b, "alice", "alice@example.com", &hex(PUBLIC)).is_some());
    assert_eq!(registry.lookup(a, &username("alice")).err(), Some(LookupError::AccountNotFound));
    assert_eq!(registry.lookup(a, &email("alice@example.com")).err(), Some(LookupError::AccountNotFound));
    assert!(registry.lookup(b, &username("alice")).is_ok());
}

#[test]
fn colliding_identifiers_resolve_within_their_client() {
    let mut registry = KeyRegistry::new();
    let a = ClientIdentity(1);
    let b = ClientIdentity(2);
    assert_eq!(registry.register(b, "alice", "alice@example.com", &hex(BASE_POINT)), Some(UserId(0)));
    assert_eq!(registry.register(a, "alice", "alice@example.com", &hex(PUBLIC)), Some(UserId(1)));
    let (user, key) = registry.lookup(a, &username("alice")).unwrap();
    assert_eq!(user, UserId(1));
    assert_eq!(key.as_bytes(), hex(PUBLIC).as_slice());
    let (user, key) = registry.lookup(b, &username("alice")).unwrap();
    assert_eq!(user, UserId(0));
    assert_eq!(key.as_bytes(), hex(BASE_POINT).as_slice());
}

#[test]
fn username_is_not_matched_against_email() {
    let mut registry = KeyRegistry::new();
    let c1 = ClientIdentity(1);
    assert!(registry.register(c1, "alice", "alice@example.com", &hex(PUBLIC)).is_some());
    assert_eq!(registry.lookup(c1, &email("alice")).err(), Some(LookupError::AccountNotFound));
    assert_eq!(registry.lookup(c1, &username("alice@example.com")).err(), Some(LookupError::AccountNotFound));
    assert_eq!(registry.lookup(c1, &username("Alice")).err(), Some(LookupError::AccountNotFound));
}

#[test]
fn stored_key_that_is_no_point_is_corrupt() {
    let mut registry = KeyRegistry::new();
    let c1 = ClientIdentity(1);
    assert!(registry.register(c1, "zed", "user3@email.com", b"zzz").is_some());
    assert_eq!(registry.lookup(c1, &username("zed")).err(), Some(LookupError::CorruptKeyRecord));
    let (user, stored) = registry.find_record(c1, &username("zed")).unwrap();
    assert_eq!(user, UserId(0));
    assert_eq!(stored, b"zzz");
}

#[test]
fn register_rejects_a_taken_username_or_email() {
    let mut registry = KeyRegistry::new();
    let c1 = ClientIdentity(1);
    let c2 = ClientIdentity(2);
    assert_eq!(registry.register(c1, "alice", "alice@example.com", &hex(PUBLIC)), Some(UserId(0)));
    assert_eq!(registry.register(c1, "alice", "other@example.com", &hex(PUBLIC)), None);
    assert_eq!(registry.register(c1, "other", "alice@example.com", &hex(PUBLIC)), None);
    assert_eq!(registry.len(), 1);
    assert_eq!(registry.register(c2, "alice", "alice@example.com", &hex(PUBLIC)), Some(UserId(1)));
    assert_eq!(registry.register(c1, "other", "other@example.com", &hex(PUBLIC)), Some(UserId(2)));
    assert_eq!(registry.len(), 3);
}

#[test]
fn empty_registry_finds_nothing() {
    let registry = KeyRegistry::new();
    assert_eq!(registry.len(), 0);
    assert!(registry.find_record(ClientIdentity(1), &username("alice")).is_none());
    assert_eq!(
        registry.lookup(ClientIdentity(1), &username("alice")).err(),
        Some(LookupError::AccountNotFound)
    );
}

#[test]
fn username_goes_before_email() {
    let chosen = Identifier::select(Some("alice".to_string()), Some("bob@example.com".to_string()));
    assert!(matches!(chosen, Some(Identifier::Username(name)) if name == "alice"));
    let chosen = Identifier::select(None, Some("bob@example.com".to_string()));
    assert!(matches!(chosen, Some(Identifier::Email(address)) if address == "bob@example.com"));
    let chosen = Identifier::select(Some("alice".to_string()), None);
    assert!(matches!(chosen, Some(Identifier::Username(name)) if name == "alice"));
    assert!(Identifier::select(None, None).is_none());
}
