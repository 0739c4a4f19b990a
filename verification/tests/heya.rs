use kachiclash::basho_id::BashoId;
use kachiclash::heya::{
    check_removal, name_slug, order_by_total, parse_recent_scores, plan_edit, recent_scores_bashos,
    recent_scores_total, url_path, validate_name, validate_quota, EditData, HeyaEdit, HeyaError,
    HeyaMembership,
};
use kachiclash::player::PlayerId;

fn membership(oyakata: i32, members: usize, name: &str) -> HeyaMembership {
    HeyaMembership { oyakata: PlayerId(oyakata), member_count: members, name: name.to_string() }
}

#[test]
fn heya_names_are_three_to_thirty_bytes() {
    assert!(validate_name("abc").is_ok());
    assert!(validate_name(&"x".repeat(30)).is_ok());
    assert!(matches!(validate_name("ab"), Err(HeyaError::NameLength)));
    assert!(matches!(validate_name(&"x".repeat(31)), Err(HeyaError::NameLength)));
    assert_eq!(HeyaError::NameLength.what(), "Name must be 3 to 30 characters");
}

#[test]
fn heya_slug_comes_from_the_name() {
    assert_eq!(name_slug("Hello World!").unwrap(), "hello-world");
    assert!(name_slug("ab").is_err());
    assert_eq!(url_path("hello-world"), "/heya/hello-world");
}

#[test]
fn quota_limits_in_order() {
    let six: Vec<HeyaMembership> = (0..6).map(|i| membership(i, 1, "h")).collect();
    match validate_quota(PlayerId(7), &six) {
        Err(e @ HeyaError::TooManyHeyas { .. }) => {
            assert_eq!(e.what(), "Player 7 in too many heyas (max 5)")
        }
        _ => panic!("expected too many heyas"),
    }
    let hosting: Vec<HeyaMembership> = (0..4).map(|_| membership(7, 1, "h")).collect();
    match validate_quota(PlayerId(7), &hosting) {
        Err(e @ HeyaError::HostingTooMany { .. }) => {
            assert_eq!(e.what(), "Player 7 hosting too many heyas (max 3)")
        }
        _ => panic!("expected hosting too many"),
    }
    let full = vec![membership(1, 3, "Small"), membership(2, 51, "Big"), membership(3, 60, "Bigger")];
    match validate_quota(PlayerId(7), &full) {
        Err(e @ HeyaError::Full { .. }) => assert_eq!(e.what(), "Heya Big is full (max 50 members)"),
        _ => panic!("expected a full heya"),
    }
    assert!(validate_quota(PlayerId(7), &vec![membership(7, 50, "ok")]).is_ok());
}

#[test]
fn oyakata_cannot_leave() {
    assert!(check_removal(PlayerId(1), PlayerId(2)).is_ok());
    let e = check_removal(PlayerId(1), PlayerId(1)).unwrap_err();
    assert_eq!(e.what(), "Oyakata can\u{2019}t leave heya");
}

#[test]
fn recent_scores_read_and_sum() {
    let scores = parse_recent_scores("10,255,0,+7");
    assert_eq!(scores, vec![Some(10), None, Some(0), Some(7)]);
    assert_eq!(recent_scores_total(&scores), 17);
    assert_eq!(parse_recent_scores("42"), vec![Some(42)]);
}

#[test]
fn members_ordered_by_total() {
    assert_eq!(order_by_total(&vec![5, 9, 5, 12]), vec![3, 1, 0, 2]);
    assert_eq!(order_by_total(&vec![]), Vec::<usize>::new());
}

#[test]
fn recent_bashos_latest_first() {
    let b = BashoId { year: 2023, month: 7 };
    let without = recent_scores_bashos(b, false);
    assert_eq!(without.len(), 6);
    assert_eq!(without[0], BashoId { year: 2023, month: 5 });
    assert_eq!(without[5], BashoId { year: 2022, month: 7 });
    let with = recent_scores_bashos(b, true);
    assert_eq!(with.len(), 7);
    assert_eq!(with[0], b);
}

#[test]
fn edits_need_permission() {
    let data = EditData {
        set_name: Some("New".to_string()),
        add_player_id: Some(PlayerId(5)),
        delete_player_id: None,
    };
    let (edits, denied) = plan_edit(data, PlayerId(1), PlayerId(2));
    assert!(denied);
    assert_eq!(edits.len(), 1);
    assert!(matches!(&edits[0], HeyaEdit::SetName(n) if n == "New"));

    let data = EditData { set_name: None, add_player_id: None, delete_player_id: Some(PlayerId(2)) };
    let (edits, denied) = plan_edit(data, PlayerId(1), PlayerId(2));
    assert!(!denied);
    assert!(matches!(edits[..], [HeyaEdit::DeleteMember(PlayerId(2))]));

    let data = EditData { set_name: None, add_player_id: Some(PlayerId(3)), delete_player_id: Some(PlayerId(4)) };
    let (edits, denied) = plan_edit(data, PlayerId(1), PlayerId(1));
    assert!(!denied);
    assert!(matches!(edits[..], [HeyaEdit::AddMember(PlayerId(3)), HeyaEdit::DeleteMember(PlayerId(4))]));
}

#[test]
fn recruit_into_hosted_heyas_only() {
    let user_heyas = vec![(1, PlayerId(7)), (2, PlayerId(8)), (3, PlayerId(7)), (4, PlayerId(7))];
    let r = kachiclash::heya::recruit_heyas(&user_heyas, PlayerId(7), &vec![3]);
    assert_eq!(r, vec![1, 4]);
}
