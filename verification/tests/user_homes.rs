use pacrid::user_homes::{
    choose_homes, distinct_dirs, first_dir, homes_for_name, homes_for_uid, human_home_candidates, parse_u32,
    pkexec_uid, sudo_user,
};

const PASSWD: &str = "root:x:0:0:root:/root:/bin/bash\n\
bin:x:1:1::/:/usr/bin/nologin\n\
alice:x:1000:1000:Alice:/home/alice:/bin/zsh\n\
bob:x:1001:1001::/home/bob:/bin/bash\n\
nobody:x:65534:65534:Nobody:/:/usr/bin/nologin\n\
carol:x:60000:60000::/home/carol:/bin/sh\n";

fn chars(s: &str) -> Vec<char> {
    s.chars().collect()
}

#[test]
fn all_human_homes_is_non_empty() {
    let homes = human_home_candidates(PASSWD);
    assert!(homes.len() < 1000, "sanity check: not thousands of homes");
    assert_eq!(homes, vec!["/home/alice".to_owned(), "/home/bob".to_owned()]);
}

#[test]
fn home_from_passwd_name_finds_root() {
    assert_eq!(homes_for_name(PASSWD, "root"), vec!["/root".to_owned()]);
    assert!(homes_for_name(PASSWD, "dave").is_empty());
}

#[test]
fn home_by_uid() {
    assert_eq!(homes_for_uid(PASSWD, 1001), vec!["/home/bob".to_owned()]);
    // A line without a readable uid ends the search.
    assert!(homes_for_uid("broken\nbob:x:1001:1001::/home/bob:/bin/sh\n", 1001).is_empty());
}

#[test]
fn uid_parsing() {
    assert_eq!(parse_u32(&chars("1000")), Some(1000));
    assert_eq!(parse_u32(&chars("+7")), Some(7));
    assert_eq!(parse_u32(&chars("4294967295")), Some(u32::MAX));
    assert_eq!(parse_u32(&chars("4294967296")), None);
    assert_eq!(parse_u32(&chars("")), None);
    assert_eq!(parse_u32(&chars("+")), None);
    assert_eq!(parse_u32(&chars("-1")), None);
    assert_eq!(parse_u32(&chars("12a")), None);
}

#[test]
fn escalation_variables() {
    assert_eq!(sudo_user(Some("alice".to_owned()), Some("bob".to_owned())), Some("alice".to_owned()));
    assert_eq!(sudo_user(None, Some("bob".to_owned())), Some("bob".to_owned()));
    assert_eq!(sudo_user(Some("root".to_owned()), Some("bob".to_owned())), None);
    assert_eq!(sudo_user(Some(String::new()), None), None);
    assert_eq!(pkexec_uid(Some("1000".to_owned())), Some(1000));
    assert_eq!(pkexec_uid(Some("0".to_owned())), None);
    assert_eq!(pkexec_uid(Some("x".to_owned())), None);
    assert_eq!(pkexec_uid(None), None);
}

#[test]
fn picking_existing_homes() {
    let c = vec!["/home/a".to_owned(), "/home/b".to_owned(), "/home/b/".to_owned()];
    assert_eq!(first_dir(&c, &[false, true, true]), Some("/home/b".to_owned()));
    assert_eq!(first_dir(&c, &[false, false, false]), None);
    assert_eq!(distinct_dirs(&c, &[true, true, true]), vec!["/home/a".to_owned(), "/home/b".to_owned()]);
}

#[test]
fn homes_in_order_of_preference() {
    let humans = vec!["/home/alice".to_owned()];
    assert_eq!(choose_homes(Some("/home/s".to_owned()), Some("/home/p".to_owned()), humans.clone(), None), vec!["/home/s".to_owned()]);
    assert_eq!(choose_homes(None, Some("/home/p".to_owned()), humans.clone(), None), vec!["/home/p".to_owned()]);
    assert_eq!(choose_homes(None, None, humans.clone(), None), humans);
    assert_eq!(choose_homes(None, None, vec![], Some("/root2".to_owned())), vec!["/root2".to_owned()]);
    assert_eq!(choose_homes(None, None, vec![], None), vec!["/root".to_owned()]);
}
