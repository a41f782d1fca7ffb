use cosmic_session::env::{copy_env, drop_key, set_first_fd, with_fd, with_var};

fn pair(key: &str, value: &str) -> (String, String) {
    (key.to_string(), value.to_string())
}

#[test]
fn variables_are_added_at_the_end() {
    let env = [pair("A", "1")];
    assert_eq!(copy_env(&env), env.to_vec());
    assert_eq!(with_var(&env, "A", "2".to_string()), vec![pair("A", "1"), pair("A", "2")]);
    assert_eq!(with_fd(&[], "FD", 17), vec![pair("FD", "17")]);
}

#[test]
fn dropping_a_key_keeps_the_order() {
    let env = vec![pair("X", "1"), pair("A", "2"), pair("X", "3"), pair("B", "4")];
    assert_eq!(drop_key(env.clone(), "X"), vec![pair("A", "2"), pair("B", "4")]);
    assert_eq!(drop_key(env.clone(), "Y"), env);
}

#[test]
fn first_of_two_keys_is_set() {
    let env = vec![pair("A", "1"), pair("Q", "2"), pair("P", "3")];
    assert_eq!(
        set_first_fd(env.clone(), "P", "Q", 5),
        vec![pair("A", "1"), pair("Q", "5"), pair("P", "3")]
    );
    assert_eq!(set_first_fd(env.clone(), "R", "S", 5), env);
}
