//! Entries (files) in an archive, and their encoding in the archive index.
use vstd::prelude::*;
use vstd::string::StrSliceExecFns;
use vstd::utf8::encode_utf8;
use crate::error::{Error, ErrorKind};
use crate::protos::{Tai64n, tai64n_enc};
use crate::wire::{
    bytes_field, encode_bytes_field, encode_len_field, encode_uint_field, len_field, uint_field,
};

verus! {

/// Default Unix mode where the platform reports none.
pub const DEFAULT_MODE: u32 = 0o644;

/// The UTF-8 bytes of a string.
pub open spec fn utf8(s: String) -> Seq<u8> {
    encode_utf8(s@)
}

/// Append the UTF-8 bytes of `s` as a byte-string field.
fn encode_str_field(field: u8, s: &String, out: &mut Vec<u8>)
    requires
        field < 16,
    ensures
        final(out)@ == old(out)@ + bytes_field(field, utf8(*s)),
{
    encode_bytes_field(field, s.as_str().as_bytes(), out);
}

/// Append the UTF-8 bytes of `s` as a length-delimited field, even when empty.
fn encode_str_len_field(field: u8, s: &String, out: &mut Vec<u8>)
    requires
        field < 16,
    ensures
        final(out)@ == old(out)@ + len_field(field, utf8(*s)),
{
    encode_len_field(field, s.as_str().as_bytes(), out);
}

/// A repeated field: one length-delimited field per item, in order.
pub open spec fn repeated(field: u8, items: Seq<Seq<u8>>) -> Seq<u8>
    decreases items.len(),
{
    if items.len() == 0 {
        seq![]
    } else {
        repeated(field, items.drop_last()) + len_field(field, items.last())
    }
}

/// Every character of a user or group name is a lowercase ASCII letter, or,
/// past the first, a digit or `-`.
pub open spec fn valid_name(cs: Seq<char>) -> bool {
    &&& cs.len() > 0
    &&& forall|i: int| 0 <= i < cs.len() ==> {
        let c = #[trigger] cs[i];
        ('a' <= c <= 'z') || (i != 0 && (('0' <= c <= '9') || c == '-'))
    }
}

/// User or group name.
#[derive(Clone, Debug, PartialEq, Eq)]
pub struct Name(String);

impl Name {
    /// Wrap text read back from an archive, as it was written.
    pub(crate) fn from_text(text: String) -> (r: Name)
        ensures
            r.text() == text,
    {
        Name(text)
    }

    /// The name's characters.
    pub closed spec fn chars(&self) -> Seq<char> {
        self.0@
    }

    /// The name as a string.
    pub closed spec fn text(&self) -> String {
        self.0
    }

    /// Parse a user or group name.
    pub fn parse(s: &str) -> (r: Result<Name, Error>)
        ensures
            r is Ok <==> valid_name(s@),
            r is Ok ==> r->Ok_0.chars() == s@,
            r is Err ==> r->Err_0.kind == ErrorKind::Parse,
    {
        let n = s.unicode_len();
        if n == 0 {
            return Err(Error::new(ErrorKind::Parse));
        }
        let mut i: usize = 0;
        while i < n
            invariant
                n == s@.len(),
                i <= n,
                forall|j: int| 0 <= j < i ==> {
                    let c = #[trigger] s@[j];
                    ('a' <= c <= 'z') || (j != 0 && (('0' <= c <= '9') || c == '-'))
                },
            decreases n - i,
        {
            let c = s.get_char(i);
            let ok = ('a' <= c && c <= 'z') || (i != 0 && (('0' <= c && c <= '9') || c == '-'));
            if !ok {
                return Err(Error::new(ErrorKind::Parse));
            }
            i = i + 1;
        }
        Ok(Name(s.to_owned()))
    }

    /// The name as a string slice.
    pub fn as_str(&self) -> (r: &str)
        ensures
            r@ == self.chars(),
    {
        self.0.as_str()
    }
}

/// A free-form attribute string that may not be empty.
pub open spec fn valid_label(cs: Seq<char>) -> bool {
    cs.len() > 0
}

/// POSIX access control list entry.
#[derive(Clone, Debug, PartialEq, Eq)]
pub struct PosixAcl(String);

/// SELinux file label.
#[derive(Clone, Debug, PartialEq, Eq)]
pub struct SELinuxLabel(String);

/// Extended attribute.
#[derive(Clone, Debug, PartialEq, Eq)]
pub struct XAttr(String);

impl PosixAcl {
    /// Wrap text read back from an archive, as it was written.
    pub(crate) fn from_text(text: String) -> (r: PosixAcl)
        ensures
            r.text() == text,
    {
        PosixAcl(text)
    }

    /// The entry as a string.
    pub closed spec fn text(&self) -> String {
        self.0
    }

    /// Parse a POSIX ACL entry; it may not be empty.
    pub fn parse(s: &str) -> (r: Result<PosixAcl, Error>)
        ensures
            r is Ok <==> valid_label(s@),
            r is Ok ==> r->Ok_0.text()@ == s@,
            r is Err ==> r->Err_0.kind == ErrorKind::Parse,
    {
        if s.unicode_len() == 0 {
            Err(Error::new(ErrorKind::Parse))
        } else {
            Ok(PosixAcl(s.to_owned()))
        }
    }

    /// The entry as a string slice.
    pub fn as_str(&self) -> (r: &str)
        ensures
            r@ == self.text()@,
    {
        self.0.as_str()
    }
}

impl SELinuxLabel {
    /// Wrap text read back from an archive, as it was written.
    pub(crate) fn from_text(text: String) -> (r: SELinuxLabel)
        ensures
            r.text() == text,
    {
        SELinuxLabel(text)
    }

    /// The label as a string.
    pub closed spec fn text(&self) -> String {
        self.0
    }

    /// Parse an SELinux label; it may not be empty.
    pub fn parse(s: &str) -> (r: Result<SELinuxLabel, Error>)
        ensures
            r is Ok <==> valid_label(s@),
            r is Ok ==> r->Ok_0.text()@ == s@,
            r is Err ==> r->Err_0.kind == ErrorKind::Parse,
    {
        if s.unicode_len() == 0 {
            Err(Error::new(ErrorKind::Parse))
        } else {
            Ok(SELinuxLabel(s.to_owned()))
        }
    }

    /// The label as a string slice.
    pub fn as_str(&self) -> (r: &str)
        ensures
            r@ == self.text()@,
    {
        self.0.as_str()
    }
}

impl XAttr {
    /// Wrap text read back from an archive, as it was written.
    pub(crate) fn from_text(text: String) -> (r: XAttr)
        ensures
            r.text() == text,
    {
        XAttr(text)
    }

    /// The attribute as a string.
    pub closed spec fn text(&self) -> String {
        self.0
    }

    /// Parse an extended attribute; it may not be empty.
    pub fn parse(s: &str) -> (r: Result<XAttr, Error>)
        ensures
            r is Ok <==> valid_label(s@),
            r is Ok ==> r->Ok_0.text()@ == s@,
            r is Err ==> r->Err_0.kind == ErrorKind::Parse,
    {
        if s.unicode_len() == 0 {
            Err(Error::new(ErrorKind::Parse))
        } else {
            Ok(XAttr(s.to_owned()))
        }
    }

    /// The attribute as a string slice.
    pub fn as_str(&self) -> (r: &str)
        ensures
            r@ == self.text()@,
    {
        self.0.as_str()
    }
}

impl core::str::FromStr for Name {
    type Err = Error;

    fn from_str(s: &str) -> Result<Name, Error> {
        Name::parse(s)
    }
}

impl core::str::FromStr for PosixAcl {
    type Err = Error;

    fn from_str(s: &str) -> Result<PosixAcl, Error> {
        PosixAcl::parse(s)
    }
}

impl core::str::FromStr for SELinuxLabel {
    type Err = Error;

    fn from_str(s: &str) -> Result<SELinuxLabel, Error> {
        SELinuxLabel::parse(s)
    }
}

impl core::str::FromStr for XAttr {
    type Err = Error;

    fn from_str(s: &str) -> Result<XAttr, Error> {
        XAttr::parse(s)
    }
}

/// Unix file mode.
#[derive(Clone, Copy, Debug, PartialEq, Eq, Structural)]
pub struct Mode(pub u32);

/// File owner: the user and group who own a file.
#[derive(Clone, Debug, PartialEq, Eq)]
pub enum Owner {
    /// Numerical IDs.
    Id {
        /// User ID.
        uid: u32,
        /// Group ID.
        gid: u32,
    },
    /// Named owner.
    Name {
        /// Name of the owning user.
        username: Name,
        /// Name of the owning group.
        groupname: Name,
    },
    /// Unspecified owner.
    Unspecified,
}

/// File permissions.
#[derive(Clone, Debug, PartialEq, Eq)]
pub struct Permissions {
    /// Unix mode.
    pub mode: Mode,
    /// POSIX ACLs.
    pub posix_acls: Vec<PosixAcl>,
    /// SELinux file labels.
    pub selinux_labels: Vec<SELinuxLabel>,
}

impl Permissions {
    /// Permissions of a file whose platform reports `mode`, or none; ACLs and
    /// labels are not collected.
    pub fn for_file(mode: Option<u32>) -> (r: Permissions)
        ensures
            r.mode.0 == match mode {
                Some(m) => m,
                None => DEFAULT_MODE,
            },
            r.posix_acls@.len() == 0,
            r.selinux_labels@.len() == 0,
    {
        let m = match mode {
            Some(m) => m,
            None => DEFAULT_MODE,
        };
        Permissions { mode: Mode(m), posix_acls: Vec::new(), selinux_labels: Vec::new() }
    }
}

/// File attributes.
#[derive(Clone, Debug, PartialEq, Eq)]
pub struct Attributes {
    /// When the file was created.
    pub created_at: Option<Tai64n>,
    /// When the file was last modified.
    pub modified_at: Option<Tai64n>,
    /// Media (MIME) type.
    pub content_type: String,
    /// Extended attributes.
    pub xattr: Vec<XAttr>,
}

/// Kinds of entries.
#[derive(Clone, Debug, PartialEq, Eq)]
pub enum Kind {
    /// Regular file.
    File,
    /// Hard or symbolic link.
    Link {
        /// Whether this is a symbolic (as opposed to hard) link.
        symbolic: bool,
        /// Path the link points to.
        target: String,
    },
}

/// Entry within an archive.
#[derive(Clone, Debug, PartialEq, Eq)]
pub struct Entry {
    /// Path of the file (relative, with no `.` or `..` components).
    pub path: String,
    /// Length of the file in bytes.
    pub length: u64,
    /// File owner.
    pub owner: Owner,
    /// File permissions.
    pub permissions: Permissions,
    /// File attributes.
    pub attributes: Attributes,
    /// Kind of entry.
    pub kind: Kind,
}

/// What the filesystem reports a path to be, without following links.
#[derive(Clone, Debug, PartialEq, Eq)]
pub enum FileType {
    /// A regular file.
    File,
    /// A symbolic link, with its target.
    Symlink(String),
    /// A directory, device, socket or other special file.
    Other,
}

/// Media type recorded for symbolic links.
pub open spec fn symlink_media_type() -> Seq<char> {
    "inode/symlink"@
}

impl Kind {
    /// The kind of entry for a file of this type: `Path` error for anything
    /// but a regular file or a symbolic link.
    pub fn for_file(file_type: &FileType) -> (r: Result<Kind, Error>)
        ensures
            match file_type {
                FileType::File => r matches Ok(Kind::File),
                FileType::Symlink(target) => r matches Ok(Kind::Link { symbolic, target: t })
                    && symbolic && t@ == target@,
                FileType::Other => r is Err && r->Err_0.kind == ErrorKind::Path,
            },
    {
        match file_type {
            FileType::File => Ok(Kind::File),
            FileType::Symlink(target) => Ok(Kind::Link { symbolic: true, target: target.clone() }),
            FileType::Other => Err(Error::new(ErrorKind::Path)),
        }
    }
}

impl Attributes {
    /// Attributes of a file of this type: the given times, the detected media
    /// type (`inode/symlink` for links), no extended attributes.
    pub fn for_file(
        file_type: &FileType,
        created_at: Option<Tai64n>,
        modified_at: Option<Tai64n>,
        detected_content_type: String,
    ) -> (r: Attributes)
        ensures
            r.created_at == created_at,
            r.modified_at == modified_at,
            r.content_type@ == match file_type {
                FileType::Symlink(_) => symlink_media_type(),
                _ => detected_content_type@,
            },
            r.xattr@.len() == 0,
    {
        let content_type = match file_type {
            FileType::Symlink(_) => "inode/symlink".to_owned(),
            _ => detected_content_type,
        };
        Attributes { created_at, modified_at, content_type, xattr: Vec::new() }
    }
}

impl Entry {
    /// The entry for a file at `path` (already known to be UTF-8): its kind
    /// from its type, its size as length for regular files and 0 for links,
    /// its owner and mode where the platform reports them, its times and its
    /// media type. Anything but a regular file or a symbolic link is a `Path`
    /// error.
    pub fn for_file(
        path: String,
        file_type: FileType,
        size: u64,
        owner: Owner,
        mode: Option<u32>,
        created_at: Option<Tai64n>,
        modified_at: Option<Tai64n>,
        detected_content_type: String,
    ) -> (r: Result<Entry, Error>)
        ensures
            r is Err <==> file_type == FileType::Other,
            r is Err ==> r->Err_0.kind == ErrorKind::Path,
            r matches Ok(e) ==> {
                &&& e.path == path
                &&& e.length == (if file_type == FileType::File { size } else { 0 })
                &&& e.owner == owner
                &&& e.permissions.mode.0 == (match mode {
                    Some(m) => m,
                    None => DEFAULT_MODE,
                })
                &&& e.permissions.posix_acls@.len() == 0
                &&& e.permissions.selinux_labels@.len() == 0
                &&& e.attributes.created_at == created_at
                &&& e.attributes.modified_at == modified_at
                &&& e.attributes.content_type@ == (match file_type {
                    FileType::Symlink(_) => symlink_media_type(),
                    _ => detected_content_type@,
                })
                &&& e.attributes.xattr@.len() == 0
                &&& match file_type {
                    FileType::File => e.kind matches Kind::File,
                    FileType::Symlink(target) => e.kind matches Kind::Link { symbolic, target: t }
                        && symbolic && t@ == target@,
                    FileType::Other => false,
                }
            },
    {
        let kind = Kind::for_file(&file_type)?;
        let length = match file_type {
            FileType::File => size,
            _ => 0,
        };
        let attributes = Attributes::for_file(&file_type, created_at, modified_at, detected_content_type);
        Ok(Entry { path, length, owner, permissions: Permissions::for_file(mode), attributes, kind })
    }
}

/// Encoding of the owner, as one of the fields 3 to 5 of an entry.
pub open spec fn owner_enc(o: Owner) -> Seq<u8> {
    match o {
        Owner::Id { uid, gid } => len_field(3, uint_field(1, uid as nat) + uint_field(2, gid as nat)),
        Owner::Name { username, groupname } => len_field(
            4,
            bytes_field(1, utf8(username.text())) + bytes_field(2, utf8(groupname.text())),
        ),
        Owner::Unspecified => len_field(5, seq![]),
    }
}

/// Encoding of permissions.
pub open spec fn permissions_enc(p: Permissions) -> Seq<u8> {
    uint_field(1, p.mode.0 as nat)
        + repeated(2, p.posix_acls@.map_values(|a: PosixAcl| utf8(a.text())))
        + repeated(3, p.selinux_labels@.map_values(|l: SELinuxLabel| utf8(l.text())))
}

/// Encoding of an optional timestamp field.
pub open spec fn timestamp_field(field: u8, t: Option<Tai64n>) -> Seq<u8> {
    match t {
        Some(t) => len_field(field, tai64n_enc(t@)),
        None => seq![],
    }
}

/// Encoding of attributes.
pub open spec fn attributes_enc(a: Attributes) -> Seq<u8> {
    timestamp_field(1, a.created_at) + timestamp_field(2, a.modified_at)
        + bytes_field(3, utf8(a.content_type))
        + repeated(4, a.xattr@.map_values(|x: XAttr| utf8(x.text())))
}

/// Encoding of the kind, as field 8 or 9 of an entry.
pub open spec fn kind_enc(k: Kind) -> Seq<u8> {
    match k {
        Kind::File => len_field(8, seq![]),
        Kind::Link { symbolic, target } => len_field(
            9,
            uint_field(1, if symbolic { 1 } else { 0 }) + bytes_field(2, utf8(target)),
        ),
    }
}

/// Encoding of an entry.
pub open spec fn entry_enc(e: Entry) -> Seq<u8> {
    bytes_field(1, utf8(e.path)) + uint_field(2, e.length as nat) + owner_enc(e.owner)
        + len_field(6, permissions_enc(e.permissions))
        + len_field(7, attributes_enc(e.attributes))
        + kind_enc(e.kind)
}

/// Append one field per string, in order.
fn encode_repeated_acls(field: u8, items: &Vec<PosixAcl>, out: &mut Vec<u8>)
    requires
        field < 16,
    ensures
        final(out)@ == old(out)@ + repeated(field, items@.map_values(|a: PosixAcl| utf8(a.text()))),
{
    let mut i: usize = 0;
    while i < items.len()
        invariant
            field < 16,
            i <= items@.len(),
            out@ == old(out)@ + repeated(field, items@.subrange(0, i as int).map_values(|a: PosixAcl| utf8(a.text()))),
        decreases items@.len() - i,
    {
        let ghost before = out@;
        encode_str_len_field(field, &items[i].0, out);
        proof {
            let m = items@.subrange(0, i + 1).map_values(|a: PosixAcl| utf8(a.text()));
            assert(m.drop_last() =~= items@.subrange(0, i as int).map_values(|a: PosixAcl| utf8(a.text())));
        }
        i = i + 1;
    }
    assert(items@.subrange(0, i as int) =~= items@);
}

/// Append one field per string, in order.
fn encode_repeated_labels(field: u8, items: &Vec<SELinuxLabel>, out: &mut Vec<u8>)
    requires
        field < 16,
    ensures
        final(out)@ == old(out)@ + repeated(field, items@.map_values(|a: SELinuxLabel| utf8(a.text()))),
{
    let mut i: usize = 0;
    while i < items.len()
        invariant
            field < 16,
            i <= items@.len(),
            out@ == old(out)@ + repeated(field, items@.subrange(0, i as int).map_values(|a: SELinuxLabel| utf8(a.text()))),
        decreases items@.len() - i,
    {
        encode_str_len_field(field, &items[i].0, out);
        proof {
            let m = items@.subrange(0, i + 1).map_values(|a: SELinuxLabel| utf8(a.text()));
            assert(m.drop_last() =~= items@.subrange(0, i as int).map_values(|a: SELinuxLabel| utf8(a.text())));
        }
        i = i + 1;
    }
    assert(items@.subrange(0, i as int) =~= items@);
}

/// Append one field per string, in order.
fn encode_repeated_xattrs(field: u8, items: &Vec<XAttr>, out: &mut Vec<u8>)
    requires
        field < 16,
    ensures
        final(out)@ == old(out)@ + repeated(field, items@.map_values(|a: XAttr| utf8(a.text()))),
{
    let mut i: usize = 0;
    while i < items.len()
        invariant
            field < 16,
            i <= items@.len(),
            out@ == old(out)@ + repeated(field, items@.subrange(0, i as int).map_values(|a: XAttr| utf8(a.text()))),
        decreases items@.len() - i,
    {
        encode_str_len_field(field, &items[i].0, out);
        proof {
            let m = items@.subrange(0, i + 1).map_values(|a: XAttr| utf8(a.text()));
            assert(m.drop_last() =~= items@.subrange(0, i as int).map_values(|a: XAttr| utf8(a.text())));
        }
        i = i + 1;
    }
    assert(items@.subrange(0, i as int) =~= items@);
}

/// Append an optional timestamp field.
fn encode_timestamp_field(field: u8, t: &Option<Tai64n>, out: &mut Vec<u8>)
    requires
        field < 16,
    ensures
        final(out)@ == old(out)@ + timestamp_field(field, *t),
{
    match t {
        Some(t) => {
            let inner = t.to_vec();
            encode_len_field(field, inner.as_slice(), out);
        },
        None => {
            assert(out@ =~= old(out)@ + timestamp_field(field, None));
        },
    }
}

impl Owner {
    /// Append this owner's field.
    pub fn encode(&self, out: &mut Vec<u8>)
        ensures
            final(out)@ == old(out)@ + owner_enc(*self),
    {
        let mut inner: Vec<u8> = Vec::new();
        match self {
            Owner::Id { uid, gid } => {
                encode_uint_field(1, *uid as u64, &mut inner);
                encode_uint_field(2, *gid as u64, &mut inner);
                encode_len_field(3, inner.as_slice(), out);
            },
            Owner::Name { username, groupname } => {
                encode_str_field(1, &username.0, &mut inner);
                encode_str_field(2, &groupname.0, &mut inner);
                encode_len_field(4, inner.as_slice(), out);
            },
            Owner::Unspecified => {
                assert(inner@ =~= seq![]);
                encode_len_field(5, inner.as_slice(), out);
            },
        }
    }
}

impl Permissions {
    /// Encode these permissions.
    pub fn to_vec(&self) -> (r: Vec<u8>)
        ensures
            r@ == permissions_enc(*self),
    {
        let mut out: Vec<u8> = Vec::new();
        encode_uint_field(1, self.mode.0 as u64, &mut out);
        encode_repeated_acls(2, &self.posix_acls, &mut out);
        encode_repeated_labels(3, &self.selinux_labels, &mut out);
        assert(out@ =~= permissions_enc(*self));
        out
    }
}

impl Attributes {
    /// Encode these attributes.
    pub fn to_vec(&self) -> (r: Vec<u8>)
        ensures
            r@ == attributes_enc(*self),
    {
        let mut out: Vec<u8> = Vec::new();
        encode_timestamp_field(1, &self.created_at, &mut out);
        encode_timestamp_field(2, &self.modified_at, &mut out);
        encode_str_field(3, &self.content_type, &mut out);
        encode_repeated_xattrs(4, &self.xattr, &mut out);
        assert(out@ =~= attributes_enc(*self));
        out
    }
}

impl Kind {
    /// Append this kind's field.
    pub fn encode(&self, out: &mut Vec<u8>)
        ensures
            final(out)@ == old(out)@ + kind_enc(*self),
    {
        let mut inner: Vec<u8> = Vec::new();
        match self {
            Kind::File => {
                assert(inner@ =~= seq![]);
                encode_len_field(8, inner.as_slice(), out);
            },
            Kind::Link { symbolic, target } => {
                encode_uint_field(1, if *symbolic { 1 } else { 0 }, &mut inner);
                encode_str_field(2, target, &mut inner);
                encode_len_field(9, inner.as_slice(), out);
            },
        }
    }
}

impl Entry {
    /// Encode this entry.
    pub fn to_vec(&self) -> (r: Vec<u8>)
        ensures
            r@ == entry_enc(*self),
    {
        let mut out: Vec<u8> = Vec::new();
        encode_str_field(1, &self.path, &mut out);
        encode_uint_field(2, self.length, &mut out);
        self.owner.encode(&mut out);
        let p = self.permissions.to_vec();
        encode_len_field(6, p.as_slice(), &mut out);
        let a = self.attributes.to_vec();
        encode_len_field(7, a.as_slice(), &mut out);
        self.kind.encode(&mut out);
        assert(out@ =~= entry_enc(*self));
        out
    }
}

} // verus!
