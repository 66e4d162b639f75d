use sv2_roles_logic::ids::{GroupId, Id};

#[test]
fn test_group_id_new_group_id() {
    let mut group_ids = GroupId::new();
    let _ = group_ids.new_group_id();
    let id = group_ids.new_group_id();
    assert!(id == 2);
}

#[test]
fn test_group_id_new_channel_id() {
    let mut group_ids = GroupId::new();
    let _ = group_ids.new_group_id();
    let id = group_ids.new_group_id();
    let channel_id = group_ids.new_channel_id(id);
    assert!(channel_id == 1);
}

#[test]
fn test_group_id_new_into_complete_id() {
    let group_id = u32::from_le_bytes([0, 1, 2, 3]);
    let channel_id = u32::from_le_bytes([10, 11, 12, 13]);
    let complete_id = GroupId::into_complete_id(group_id, channel_id);
    assert!([10, 11, 12, 13, 0, 1, 2, 3] == complete_id.to_le_bytes());
}

#[test]
fn test_group_id_new_into_group_id() {
    let group_id = u32::from_le_bytes([0, 1, 2, 3]);
    let channel_id = u32::from_le_bytes([10, 11, 12, 13]);
    let complete_id = GroupId::into_complete_id(group_id, channel_id);
    let channel_from_complete = GroupId::into_channel_id(complete_id);
    assert!(channel_id == channel_from_complete);
}

#[test]
fn a_complete_id_gives_back_its_group() {
    let group_id = u32::from_le_bytes([0, 1, 2, 3]);
    let complete_id = GroupId::into_complete_id(group_id, u32::MAX);
    assert_eq!(GroupId::into_group_id(complete_id), group_id);
    assert_eq!(GroupId::into_channel_id(complete_id), u32::MAX);
    let id: u64 = 0xFEDC_BA98_7654_3210;
    assert_eq!(
        GroupId::into_complete_id(GroupId::into_group_id(id), GroupId::into_channel_id(id)),
        id
    );
}

#[test]
fn ids_start_at_one_and_rise() {
    let mut id = Id::new();
    assert_eq!(id, Id::default());
    assert_eq!((id.next(), id.next(), id.next()), (1, 2, 3));
    let mut groups = GroupId::default();
    assert_eq!(groups.new_channel_id(0), 1);
    assert_eq!(groups.new_channel_id(7), 2);
    assert_eq!(groups.new_group_id(), 1);
}
