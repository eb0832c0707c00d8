//! The fixed-shape file-attribute record: type, timestamps, permissions
//! and owning identities, plus the backend-private node reference.

use vstd::prelude::*;

verus! {

/// What kind of entry a name designates.
#[derive(Clone, Copy, Debug, PartialEq, Eq, Structural)]
pub enum Type_type {
    File,
    Directory,
    Block_device,
    Character_device,
    Pipe,
    Socket,
    Symbolic_link,
}

/// A point in time, in seconds since the epoch the clock service uses.
#[derive(Clone, Copy, Debug, PartialEq, Eq, Structural)]
pub struct Time_type(pub u64);

/// A backend-internal node reference.
#[derive(Clone, Copy, Debug, PartialEq, Eq, Structural)]
pub struct Inode_type(pub u64);

/// The identity that owns a file.
#[derive(Clone, Copy, Debug, PartialEq, Eq, Structural)]
pub struct User_identifier_type(pub u16);

/// The group that owns a file.
#[derive(Clone, Copy, Debug, PartialEq, Eq, Structural)]
pub struct Group_identifier_type(pub u16);

/// Unix-style permission bits.
#[derive(Clone, Copy, Debug, PartialEq, Eq, Structural)]
pub struct Permissions_type(pub u16);

/// The permission bits a fresh entry of a type receives: directories are
/// traversable by everyone, regular files are world-readable, and every
/// other type is private to its owner.
pub open spec fn Default_permission_bits(Type: Type_type) -> u16 {
    match Type {
        Type_type::Directory => 0o755u16,
        Type_type::File => 0o644u16,
        _ => 0o600u16,
    }
}

impl Permissions_type {
    /// The default permissions derive purely from the type.
    pub fn New_default(Type: Type_type) -> (Result: Self)
        ensures
            Result.0 == Default_permission_bits(Type),
    {
        match Type {
            Type_type::Directory => Permissions_type(0o755),
            Type_type::File => Permissions_type(0o644),
            _ => Permissions_type(0o600),
        }
    }
}

/// File attributes: the type, the three clocks, the permissions, the
/// owning identities, and the node reference the backend assigns once.
#[derive(Clone, Copy, Debug, PartialEq, Eq, Structural)]
pub struct Metadata_type {
    pub Inode: Option<Inode_type>,
    pub Type: Type_type,
    pub Creation_time: Time_type,
    pub Modification_time: Time_type,
    pub Access_time: Time_type,
    pub Permissions: Permissions_type,
    pub User: User_identifier_type,
    pub Group: Group_identifier_type,
}

impl Metadata_type {
    /// A fresh record: permissions derive from the type alone and the
    /// three clocks are stamped with the same instant.
    pub fn Get_default(
        Type: Type_type,
        Current_time: Time_type,
        User: User_identifier_type,
        Group: Group_identifier_type,
    ) -> (Result: Option<Self>)
        ensures
            match Result {
                Some(Metadata) => {
                    &&& Metadata.Inode is None
                    &&& Metadata.Type == Type
                    &&& Metadata.Creation_time == Current_time
                    &&& Metadata.Modification_time == Current_time
                    &&& Metadata.Access_time == Current_time
                    &&& Metadata.Permissions.0 == Default_permission_bits(Type)
                    &&& Metadata.User == User
                    &&& Metadata.Group == Group
                },
                None => false,
            },
    {
        let Permissions = Permissions_type::New_default(Type);
        Some(Metadata_type {
            Inode: None,
            Type,
            Creation_time: Current_time,
            Modification_time: Current_time,
            Access_time: Current_time,
            Permissions,
            User,
            Group,
        })
    }

    pub fn Get_inode(&self) -> (Result: Option<Inode_type>)
        ensures
            Result == self.Inode,
    {
        self.Inode
    }

    pub fn Get_type(&self) -> (Result: Type_type)
        ensures
            Result == self.Type,
    {
        self.Type
    }

    pub fn Get_creation_time(&self) -> (Result: Time_type)
        ensures
            Result == self.Creation_time,
    {
        self.Creation_time
    }

    pub fn Get_modification_time(&self) -> (Result: Time_type)
        ensures
            Result == self.Modification_time,
    {
        self.Modification_time
    }

    pub fn Get_access_time(&self) -> (Result: Time_type)
        ensures
            Result == self.Access_time,
    {
        self.Access_time
    }

    pub fn Get_permissions(&self) -> (Result: Permissions_type)
        ensures
            Result == self.Permissions,
    {
        self.Permissions
    }

    pub fn Get_user(&self) -> (Result: User_identifier_type)
        ensures
            Result == self.User,
    {
        self.User
    }

    pub fn Get_group(&self) -> (Result: Group_identifier_type)
        ensures
            Result == self.Group,
    {
        self.Group
    }

    /// The node reference is set exactly once, when the backend first
    /// binds the record to a node; afterwards it never changes.
    pub fn Set_inode(&mut self, Inode: Inode_type)
        requires
            old(self).Inode is None,
        ensures
            final(self).Inode == Some(Inode),
            final(self).Type == old(self).Type,
            final(self).Creation_time == old(self).Creation_time,
            final(self).Modification_time == old(self).Modification_time,
            final(self).Access_time == old(self).Access_time,
            final(self).Permissions == old(self).Permissions,
            final(self).User == old(self).User,
            final(self).Group == old(self).Group,
    {
        self.Inode = Some(Inode);
    }

    pub fn Set_type(&mut self, Type: Type_type)
        ensures
            *final(self) == (Metadata_type { Type, ..*old(self) }),
    {
        self.Type = Type;
    }

    pub fn Set_creation_time(&mut self, Time: Time_type)
        ensures
            *final(self) == (Metadata_type { Creation_time: Time, ..*old(self) }),
    {
        self.Creation_time = Time;
    }

    pub fn Set_modification_time(&mut self, Time: Time_type)
        ensures
            *final(self) == (Metadata_type { Modification_time: Time, ..*old(self) }),
    {
        self.Modification_time = Time;
    }

    pub fn Set_access_time(&mut self, Time: Time_type)
        ensures
            *final(self) == (Metadata_type { Access_time: Time, ..*old(self) }),
    {
        self.Access_time = Time;
    }

    pub fn Set_permissions(&mut self, Permissions: Permissions_type)
        ensures
            *final(self) == (Metadata_type { Permissions, ..*old(self) }),
    {
        self.Permissions = Permissions;
    }

    pub fn Set_owner(&mut self, Owner: User_identifier_type)
        ensures
            *final(self) == (Metadata_type { User: Owner, ..*old(self) }),
    {
        self.User = Owner;
    }

    pub fn Set_group(&mut self, Group: Group_identifier_type)
        ensures
            *final(self) == (Metadata_type { Group, ..*old(self) }),
    {
        self.Group = Group;
    }
}

} // verus!
