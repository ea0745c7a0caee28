use heap_analysis::example;
use heap_analysis::web::{Client, Clients, RegisterResponse};

#[test]
fn response_names_the_client() {
    let response = RegisterResponse::new(&"abc".to_owned());
    assert_eq!(response.url(), "ws://localhost:8088/ws/abc");
}

#[test]
fn registered_client_is_not_sent_to() {
    let mut clients: Clients<u8> = Clients::new();
    let response = clients.register("abc".to_owned());
    assert_eq!(response.url(), "ws://localhost:8088/ws/abc");
    assert!(clients.recipients().is_empty());
    assert!(matches!(clients.remove(&"abc".to_owned()), Some(Client { sender: None })));
    assert!(clients.remove(&"abc".to_owned()).is_none());
}

#[test]
fn new_registrations_get_random_names() {
    let mut clients: Clients<u8> = Clients::new();
    let first = clients.register_new();
    let second = clients.register_new();
    assert_ne!(first.url(), second.url());
    let id = first.url().strip_prefix("ws://localhost:8088/ws/").unwrap().to_owned();
    assert_eq!(id.len(), 36);
    assert!(clients.remove(&id).is_some());
}

#[test]
fn connected_clients_are_sent_to() {
    let mut clients: Clients<u8> = Clients::new();
    let one = clients.connect(1);
    let two = clients.connect(2);
    let mut senders: Vec<u8> = clients.recipients().into_iter().copied().collect();
    senders.sort();
    assert_eq!(senders, vec![1, 2]);
    assert!(matches!(clients.remove(&one), Some(Client { sender: Some(1) })));
    assert_eq!(clients.recipients(), vec![&2]);
    assert!(clients.remove(&two).is_some());
    assert!(clients.recipients().is_empty());
}

#[test]
fn random_names_are_hyphenated() {
    let mut clients: Clients<u8> = Clients::new();
    for _ in 0..50 {
        let id = clients.connect(0);
        let chars: Vec<char> = id.chars().collect();
        assert_eq!(chars.len(), 36);
        for (i, c) in chars.iter().enumerate() {
            if i == 8 || i == 13 || i == 18 || i == 23 {
                assert_eq!(*c, '-');
            } else {
                assert!(c.is_ascii_digit() || ('a'..='f').contains(c));
            }
        }
        assert_eq!(chars[14], '4');
        assert!(['8', '9', 'a', 'b'].contains(&chars[19]));
    }
}

#[test]
fn inserting_replaces_a_client_of_the_same_name() {
    let mut clients: Clients<u8> = Clients::new();
    clients.insert("abc".to_owned(), Client { sender: Some(1) });
    clients.insert("def".to_owned(), Client { sender: None });
    clients.insert("abc".to_owned(), Client { sender: Some(3) });
    assert_eq!(clients.recipients(), vec![&3]);
}

#[test]
fn workload_has_the_expected_size() {
    let s = example::test();
    assert_eq!(s.len(), 4_194_304);
    assert!(s.bytes().all(|byte| byte == b' '));
}
