use iris::directory::Directory;
use iris::dispatch::{
    dispatch, join_channel, part_channel, private_msg_channel, private_msg_user, quit_server,
};
use iris::handshake::{handle_nick, register_user, Session};
use iris::model::ErrorKind;
use iris::reply::{Command, Delivery, Reply};

fn register(d: &mut Directory, nick: &str) {
    assert!(d.register_nick(&nick.to_string()));
}

fn members(d: &Directory, channel: &str) -> Vec<String> {
    for entry in &d.channels {
        if entry.name == channel {
            return entry.members.clone();
        }
    }
    panic!("no channel named {}", channel);
}

fn has_channel(d: &Directory, channel: &str) -> bool {
    d.channels.iter().any(|e| e.name == channel)
}

fn recipients(out: &[Delivery]) -> Vec<String> {
    out.iter().map(|del| del.to.clone()).collect()
}

#[test]
fn registration_pair_then_collision() {
    let mut d = Directory::new();

    let (s1, r1) = handle_nick(&d, Session::Unauthenticated, &"alice".to_string());
    assert!(r1.is_none());
    let (s1, r1) = register_user(&mut d, s1, &"Alice A".to_string());
    assert!(matches!(s1, Session::Registered { .. }));
    assert!(matches!(r1, Some(Reply::Welcome { .. })));

    let (s2, r2) = handle_nick(&d, Session::Unauthenticated, &"bob".to_string());
    assert!(r2.is_none());
    let (s2, _) = register_user(&mut d, s2, &"Bob B".to_string());
    assert!(matches!(s2, Session::Registered { .. }));

    assert!(d.is_registered(&"alice".to_string()));
    assert!(d.is_registered(&"bob".to_string()));

    // a third connection tries the first nick again
    let (s3, r3) = handle_nick(&d, Session::Unauthenticated, &"alice".to_string());
    assert!(matches!(
        r3,
        Some(Reply::ErrorReply { kind: ErrorKind::NickCollision })
    ));
    assert!(matches!(s3, Session::Unauthenticated));
    assert_eq!(d.users.len(), 2);
}

#[test]
fn user_time_race_is_rejected_at_insertion() {
    // two sessions pass the NICK-time check before either registers
    let mut d = Directory::new();
    let (s1, _) = handle_nick(&d, Session::Unauthenticated, &"carol".to_string());
    let (s2, _) = handle_nick(&d, Session::Unauthenticated, &"carol".to_string());

    let (s1, r1) = register_user(&mut d, s1, &"First".to_string());
    assert!(matches!(s1, Session::Registered { .. }));
    assert!(matches!(r1, Some(Reply::Welcome { .. })));

    // the insertion, not the earlier check, decides uniqueness
    let (s2, r2) = register_user(&mut d, s2, &"Second".to_string());
    assert!(matches!(s2, Session::NickProvided { .. }));
    assert!(matches!(
        r2,
        Some(Reply::ErrorReply { kind: ErrorKind::NickCollision })
    ));
    assert_eq!(d.users.len(), 1);
}

#[test]
fn user_before_nick_is_ignored() {
    let mut d = Directory::new();
    let (s, r) = register_user(&mut d, Session::Unauthenticated, &"Nobody".to_string());
    assert!(matches!(s, Session::Unauthenticated));
    assert!(r.is_none());
    assert_eq!(d.users.len(), 0);
}

#[test]
fn join_twice_is_idempotent() {
    let mut d = Directory::new();
    register(&mut d, "alice");

    let first = join_channel(&mut d, &"alice".to_string(), &"#x".to_string());
    assert_eq!(recipients(&first), vec!["alice".to_string()]);
    assert!(matches!(first[0].reply, Reply::JoinNotice { .. }));

    let second = join_channel(&mut d, &"alice".to_string(), &"#x".to_string());
    assert!(second.is_empty());

    let m = members(&d, "#x");
    assert_eq!(m, vec!["alice".to_string()]);
}

#[test]
fn join_notifies_in_post_append_order() {
    let mut d = Directory::new();
    register(&mut d, "alice");
    register(&mut d, "bob");
    register(&mut d, "carol");
    join_channel(&mut d, &"alice".to_string(), &"#x".to_string());
    join_channel(&mut d, &"bob".to_string(), &"#x".to_string());
    let out = join_channel(&mut d, &"carol".to_string(), &"#x".to_string());
    assert_eq!(
        recipients(&out),
        vec!["alice".to_string(), "bob".to_string(), "carol".to_string()]
    );
    for del in &out {
        match &del.reply {
            Reply::JoinNotice { channel, sender } => {
                assert_eq!(channel, "#x");
                assert_eq!(sender, "carol");
            }
            other => panic!("expected a join notice, got {:?}", other),
        }
    }
}

#[test]
fn part_twice_second_is_silent() {
    let mut d = Directory::new();
    register(&mut d, "alice");
    register(&mut d, "bob");
    join_channel(&mut d, &"alice".to_string(), &"#x".to_string());
    join_channel(&mut d, &"bob".to_string(), &"#x".to_string());

    let first = part_channel(&mut d, &"bob".to_string(), &"#x".to_string());
    // the notice goes to the pre-removal member list, in order
    assert_eq!(
        recipients(&first),
        vec!["alice".to_string(), "bob".to_string()]
    );
    assert!(matches!(first[0].reply, Reply::PartNotice { .. }));
    assert_eq!(members(&d, "#x"), vec!["alice".to_string()]);

    let second = part_channel(&mut d, &"bob".to_string(), &"#x".to_string());
    assert!(second.is_empty());
}

#[test]
fn part_unknown_channel_is_an_error() {
    let mut d = Directory::new();
    register(&mut d, "alice");
    let out = part_channel(&mut d, &"alice".to_string(), &"#nowhere".to_string());
    assert_eq!(recipients(&out), vec!["alice".to_string()]);
    assert!(matches!(
        out[0].reply,
        Reply::ErrorReply { kind: ErrorKind::NoSuchChannel }
    ));
}

#[test]
fn privmsg_unknown_channel_one_error_no_broadcast() {
    let mut d = Directory::new();
    register(&mut d, "alice");
    let out = private_msg_channel(
        &d,
        &"alice".to_string(),
        &"#ghost".to_string(),
        &"hello?".to_string(),
    );
    assert_eq!(out.len(), 1);
    assert_eq!(out[0].to, "alice");
    assert!(matches!(
        out[0].reply,
        Reply::ErrorReply { kind: ErrorKind::NoSuchChannel }
    ));
    assert!(!has_channel(&d, "#ghost"));
}

#[test]
fn privmsg_user_delivers_to_target_only() {
    let mut d = Directory::new();
    register(&mut d, "alice");
    register(&mut d, "bob");
    let out = private_msg_user(
        &d,
        &"alice".to_string(),
        &"bob".to_string(),
        &"psst".to_string(),
    );
    assert_eq!(recipients(&out), vec!["bob".to_string()]);
    match &out[0].reply {
        Reply::UserMsg { target, text, sender } => {
            assert_eq!(target, "bob");
            assert_eq!(text, "psst");
            assert_eq!(sender, "alice");
        }
        other => panic!("expected a user message, got {:?}", other),
    }
}

#[test]
fn privmsg_unknown_user_is_an_error_to_sender() {
    let mut d = Directory::new();
    register(&mut d, "alice");
    let out = private_msg_user(
        &d,
        &"alice".to_string(),
        &"nobody".to_string(),
        &"psst".to_string(),
    );
    assert_eq!(recipients(&out), vec!["alice".to_string()]);
    assert!(matches!(
        out[0].reply,
        Reply::ErrorReply { kind: ErrorKind::NoSuchNick }
    ));
}

#[test]
fn quit_removes_everywhere_and_frees_the_nick() {
    let mut d = Directory::new();
    register(&mut d, "alice");
    register(&mut d, "bob");
    join_channel(&mut d, &"alice".to_string(), &"#a".to_string());
    join_channel(&mut d, &"bob".to_string(), &"#a".to_string());
    join_channel(&mut d, &"alice".to_string(), &"#b".to_string());

    let out = quit_server(&mut d, &"alice".to_string(), &"bye".to_string());
    // one notice to bob in "#a"; "#b" has nobody left to notify
    assert_eq!(recipients(&out), vec!["bob".to_string()]);
    match &out[0].reply {
        Reply::QuitNotice { reason, sender } => {
            assert_eq!(reason, "bye");
            assert_eq!(sender, "alice");
        }
        other => panic!("expected a quit notice, got {:?}", other),
    }
    assert_eq!(members(&d, "#a"), vec!["bob".to_string()]);
    assert!(members(&d, "#b").is_empty());
    assert!(!d.is_registered(&"alice".to_string()));

    // the nick is free for a new registration at once
    assert!(d.register_nick(&"alice".to_string()));
}

#[test]
fn quit_reason_defaults_to_the_nick() {
    let mut d = Directory::new();
    register(&mut d, "alice");
    register(&mut d, "bob");
    join_channel(&mut d, &"alice".to_string(), &"#a".to_string());
    join_channel(&mut d, &"bob".to_string(), &"#a".to_string());
    let out = dispatch(
        &mut d,
        &"bob".to_string(),
        Command::Quit { reason: None },
    );
    assert_eq!(recipients(&out), vec!["alice".to_string()]);
    match &out[0].reply {
        Reply::QuitNotice { reason, sender } => {
            assert_eq!(reason, "bob");
            assert_eq!(sender, "bob");
        }
        other => panic!("expected a quit notice, got {:?}", other),
    }
}

#[test]
fn ping_echoes_payload_to_sender_only() {
    let mut d = Directory::new();
    register(&mut d, "alice");
    let out = dispatch(
        &mut d,
        &"alice".to_string(),
        Command::Ping { payload: "tok123".to_string() },
    );
    assert_eq!(recipients(&out), vec!["alice".to_string()]);
    match &out[0].reply {
        Reply::Pong { payload } => assert_eq!(payload, "tok123"),
        other => panic!("expected a pong, got {:?}", other),
    }
}

#[test]
fn channel_scenario_join_message_part_message() {
    let mut d = Directory::new();
    register(&mut d, "A");
    register(&mut d, "B");
    dispatch(&mut d, &"A".to_string(), Command::Join { channel: "#general".to_string() });
    dispatch(&mut d, &"B".to_string(), Command::Join { channel: "#general".to_string() });

    let out = dispatch(
        &mut d,
        &"A".to_string(),
        Command::PrivMsgChannel { channel: "#general".to_string(), text: "hi".to_string() },
    );
    assert_eq!(recipients(&out), vec!["A".to_string(), "B".to_string()]);
    for del in &out {
        match &del.reply {
            Reply::ChannelMsg { channel, text, sender } => {
                assert_eq!(channel, "#general");
                assert_eq!(text, "hi");
                assert_eq!(sender, "A");
            }
            other => panic!("expected a channel message, got {:?}", other),
        }
    }

    dispatch(&mut d, &"B".to_string(), Command::Part { channel: "#general".to_string() });

    let out = dispatch(
        &mut d,
        &"A".to_string(),
        Command::PrivMsgChannel { channel: "#general".to_string(), text: "bye".to_string() },
    );
    assert_eq!(recipients(&out), vec!["A".to_string()]);
}

#[test]
fn emptied_channel_is_retained_and_silent() {
    let mut d = Directory::new();
    register(&mut d, "alice");
    join_channel(&mut d, &"alice".to_string(), &"#x".to_string());
    part_channel(&mut d, &"alice".to_string(), &"#x".to_string());
    assert!(has_channel(&d, "#x"));
    // a later message to the emptied channel is a no-member delivery,
    // not a NoSuchChannel error
    let out = private_msg_channel(
        &d,
        &"alice".to_string(),
        &"#x".to_string(),
        &"anyone?".to_string(),
    );
    assert!(out.is_empty());
}

#[test]
fn racing_joins_build_one_channel_with_every_nick_once() {
    let nicks = ["n1", "n2", "n3", "n4", "n5"];
    // two arrival interleavings of the same five workers
    let orders: [[usize; 5]; 2] = [[0, 1, 2, 3, 4], [3, 0, 4, 2, 1]];
    for order in orders {
        let mut d = Directory::new();
        for n in nicks {
            register(&mut d, n);
        }
        for k in order {
            join_channel(&mut d, &nicks[k].to_string(), &"#new".to_string());
        }
        let count = d.channels.iter().filter(|e| e.name == "#new").count();
        assert_eq!(count, 1);
        let m = members(&d, "#new");
        assert_eq!(m.len(), 5);
        for n in nicks {
            assert_eq!(m.iter().filter(|x| x.as_str() == n).count(), 1);
        }
    }
}
