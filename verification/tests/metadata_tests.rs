//! Tests of the file-attribute record.

use xila_fs::metadata::{
    Group_identifier_type, Inode_type, Metadata_type, Permissions_type, Time_type, Type_type,
    User_identifier_type,
};

#[test]
fn defaults_derive_from_the_type_alone() {
    let Now = Time_type(1000);
    let User = User_identifier_type(7);
    let Group = Group_identifier_type(8);
    let Metadata = Metadata_type::Get_default(Type_type::File, Now, User, Group).unwrap();
    assert_eq!(Metadata.Get_permissions(), Permissions_type(0o644));
    let Metadata = Metadata_type::Get_default(Type_type::Directory, Now, User, Group).unwrap();
    assert_eq!(Metadata.Get_permissions(), Permissions_type(0o755));
    let Metadata = Metadata_type::Get_default(Type_type::Pipe, Now, User, Group).unwrap();
    assert_eq!(Metadata.Get_permissions(), Permissions_type(0o600));
}

#[test]
fn the_three_clocks_start_identical() {
    let Now = Time_type(424242);
    let Metadata = Metadata_type::Get_default(
        Type_type::File,
        Now,
        User_identifier_type(1),
        Group_identifier_type(2),
    )
    .unwrap();
    assert_eq!(Metadata.Get_creation_time(), Now);
    assert_eq!(Metadata.Get_modification_time(), Now);
    assert_eq!(Metadata.Get_access_time(), Now);
    assert_eq!(Metadata.Get_type(), Type_type::File);
    assert_eq!(Metadata.Get_user(), User_identifier_type(1));
    assert_eq!(Metadata.Get_group(), Group_identifier_type(2));
    assert_eq!(Metadata.Get_inode(), None);
}

#[test]
fn setters_change_exactly_their_field() {
    let mut Metadata = Metadata_type::Get_default(
        Type_type::File,
        Time_type(5),
        User_identifier_type(1),
        Group_identifier_type(2),
    )
    .unwrap();
    Metadata.Set_type(Type_type::Directory);
    assert_eq!(Metadata.Get_type(), Type_type::Directory);
    Metadata.Set_creation_time(Time_type(10));
    Metadata.Set_modification_time(Time_type(11));
    Metadata.Set_access_time(Time_type(12));
    assert_eq!(Metadata.Get_creation_time(), Time_type(10));
    assert_eq!(Metadata.Get_modification_time(), Time_type(11));
    assert_eq!(Metadata.Get_access_time(), Time_type(12));
    Metadata.Set_permissions(Permissions_type(0o700));
    assert_eq!(Metadata.Get_permissions(), Permissions_type(0o700));
    Metadata.Set_owner(User_identifier_type(9));
    Metadata.Set_group(Group_identifier_type(10));
    assert_eq!(Metadata.Get_user(), User_identifier_type(9));
    assert_eq!(Metadata.Get_group(), Group_identifier_type(10));
}

#[test]
fn the_node_reference_is_assigned_once() {
    let mut Metadata = Metadata_type::Get_default(
        Type_type::File,
        Time_type(5),
        User_identifier_type(1),
        Group_identifier_type(2),
    )
    .unwrap();
    assert_eq!(Metadata.Get_inode(), None);
    Metadata.Set_inode(Inode_type(77));
    assert_eq!(Metadata.Get_inode(), Some(Inode_type(77)));
}
