use hangar_application::json::{find_member, get, insert_member, json_clone, Json};

#[test]
fn a_member_set_twice_holds_its_last_value_once() {
    let mut members: Vec<(String, Json)> = vec![("a".into(), Json::Null)];
    insert_member(&mut members, "b".into(), Json::Bool(true));
    insert_member(&mut members, "a".into(), Json::Str("x".into()));
    assert_eq!(members.len(), 2);
    let doc = Json::Object(members);
    assert_eq!(get(&doc, "a"), Some(&Json::Str("x".into())));
    assert_eq!(get(&doc, "b"), Some(&Json::Bool(true)));
    assert_eq!(get(&doc, "c"), None);
    assert_eq!(get(&Json::Null, "a"), None);
}

#[test]
fn a_copy_equals_the_original() {
    let doc = Json::Object(vec![("k".into(), Json::Array(vec![Json::Number("1".into()), Json::Str("s".into())]))]);
    assert_eq!(json_clone(&doc), doc);
    if let Json::Object(ms) = &doc {
        assert_eq!(find_member(ms, "k"), Some(0));
    }
}
