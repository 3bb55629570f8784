//! The record of one entry in the long listing: its name, permissions, owner,
//! group, size and modification time, each as the text that is shown.

use vstd::prelude::*;
use vstd::string::*;

use crate::calendar::{is_timestamp, modified_time};
use crate::entry::{Entry, EntryView, OsText, OsTextView, Stat};
use crate::error::{ErrorKind, ListError, ListErrorView};
use crate::text::{lemma_padded_len, pad, padded, text_len, text_of};
use crate::widths::{MaxInfo, Widths};
use crate::platform::{
    abbreviated_size, group_name, local_time, size_text, user_name, MAX_FILE_LEN,
    MAX_INSTANT_SECS, MIN_INSTANT_SECS, NANOS_PER_SEC,
};

verus! {

/// The letter that stands for the permission at place `k` of the nine, counted
/// from the owner's read permission.
pub open spec fn permission_letter(k: int) -> char {
    if k % 3 == 0 {
        'r'
    } else if k % 3 == 1 {
        'w'
    } else {
        'x'
    }
}

/// Whether `mode` grants the permission at place `k` of the nine: the bits are
/// read from the most significant, the owner's read permission, down to the
/// execute permission of all others.
pub open spec fn permission_granted(mode: u32, k: int) -> bool {
    mode & (0x100u32 >> (k as u32)) != 0
}

/// The character at place `i` of a permission string. A symbolic link shows
/// as a link, also where it points to a directory.
pub open spec fn permission_char(is_dir: bool, is_link: bool, mode: u32, i: int) -> char {
    if i == 0 {
        if is_link {
            'l'
        } else if is_dir {
            'd'
        } else {
            '-'
        }
    } else if permission_granted(mode, i - 1) {
        permission_letter(i - 1)
    } else {
        '-'
    }
}

/// The permission string: the glyph of the entry's type, `l` for a symbolic
/// link, `d` for a directory and `-` for anything else, and then nine
/// characters, each the letter of a permission that is granted or `-`.
pub open spec fn permission_text(is_dir: bool, is_link: bool, mode: u32) -> Seq<char> {
    Seq::new(10, |i: int| permission_char(is_dir, is_link, mode, i))
}

/// The place of the first space in `text`, or its length where it has none.
pub open spec fn first_space(text: Seq<char>) -> int
    decreases text.len(),
{
    if text.len() == 0 {
        0
    } else if text[0] == ' ' {
        0
    } else {
        1 + first_space(text.drop_first())
    }
}

/// The number in a size text: what stands before the first space.
pub open spec fn size_digits(text: Seq<char>) -> Seq<char> {
    text.take(first_space(text))
}

/// The unit in a size text: what stands behind the first space; nothing where
/// the text has no space.
pub open spec fn size_unit(text: Seq<char>) -> Seq<char> {
    if first_space(text) < text.len() {
        text.skip(first_space(text) + 1)
    } else {
        Seq::empty()
    }
}

/// `first_space` is the least place that holds a space.
pub proof fn lemma_first_space(text: Seq<char>)
    ensures
        0 <= first_space(text) <= text.len(),
        first_space(text) < text.len() ==> text[first_space(text)] == ' ',
        forall|j: int| 0 <= j < first_space(text) ==> text[j] != ' ',
    decreases text.len(),
{
    if text.len() > 0 && text[0] != ' ' {
        let rest = text.drop_first();
        lemma_first_space(rest);
        assert forall|j: int| 0 <= j < first_space(text) implies text[j] != ' ' by {
            if j > 0 {
                assert(text[j] == rest[j - 1]);
            }
        }
    }
}

/// A place that holds a space, with none before it, is the first space.
pub proof fn lemma_first_space_found(text: Seq<char>, k: int)
    requires
        0 <= k <= text.len(),
        k < text.len() ==> text[k] == ' ',
        forall|j: int| 0 <= j < k ==> text[j] != ' ',
    ensures
        first_space(text) == k,
{
    lemma_first_space(text);
    let f = first_space(text);
    if f < k {
        assert(text[f] != ' ');
    } else if k < f {
        assert(text[k] != ' ');
    }
}

/// Splits a size text at its first space into the number and the unit.
pub fn split_size(text: &str) -> (parts: (String, String))
    ensures
        parts.0@ == size_digits(text@),
        parts.1@ == size_unit(text@),
{
    let len = text.unicode_len();
    let mut at: usize = 0;
    let mut found = false;
    while at < len && !found
        invariant
            at <= len,
            len == text@.len(),
            found ==> at < len && text@[at as int] == ' ',
            forall|j: int| 0 <= j < at ==> text@[j] != ' ',
        decreases len - at + if found { 0int } else { 1int },
    {
        if text.get_char(at) == ' ' {
            found = true;
        } else {
            at = at + 1;
        }
    }
    proof {
        lemma_first_space_found(text@, at as int);
    }
    let digits = String::from_str(text.substring_char(0, at));
    let unit = if at < len {
        String::from_str(text.substring_char(at + 1, len))
    } else {
        String::new()
    };
    (digits, unit)
}

/// Writes out the permission string of an entry.
pub fn format_permission(is_dir: bool, is_link: bool, mode: u32) -> (permission: String)
    ensures
        permission@ == permission_text(is_dir, is_link, mode),
{
    let glyph = if is_link {
        "l"
    } else if is_dir {
        "d"
    } else {
        "-"
    };
    proof {
        reveal_strlit("d");
        reveal_strlit("l");
        reveal_strlit("-");
    }
    let mut permission = String::from_str(glyph);
    let mut place: u32 = 0;
    while place < 9
        invariant
            place <= 9,
            permission@ == Seq::new(
                (place + 1) as nat,
                |i: int| permission_char(is_dir, is_link, mode, i),
            ),
        decreases 9 - place,
    {
        let mask: u32 = 0x100u32 >> place;
        let letter = if mode & mask == 0 {
            "-"
        } else if place % 3 == 0 {
            "r"
        } else if place % 3 == 1 {
            "w"
        } else {
            "x"
        };
        proof {
            reveal_strlit("-");
            reveal_strlit("r");
            reveal_strlit("w");
            reveal_strlit("x");
        }
        permission.append(letter);
        place = place + 1;
    }
    permission
}

/// What the machine says of an entry beyond its metadata: the names of its
/// owner and group, and its size and modification time as text. Each is `None`
/// where the machine has no answer.
#[derive(Debug)]
pub struct Labels {
    pub user: Option<String>,
    pub group: Option<String>,
    pub size: Option<String>,
    pub time: Option<String>,
}

/// [`Labels`] as a plain value.
pub struct LabelsView {
    pub user: Option<Seq<char>>,
    pub group: Option<Seq<char>>,
    pub size: Option<Seq<char>>,
    pub time: Option<Seq<char>>,
}

impl View for Labels {
    type V = LabelsView;

    open spec fn view(&self) -> LabelsView {
        LabelsView {
            user: text_of(self.user),
            group: text_of(self.group),
            size: text_of(self.size),
            time: text_of(self.time),
        }
    }
}

/// Whether `stat` holds an instant that the calendar takes: one whose year
/// fits the calendar's field, with less than a second of nanoseconds.
pub open spec fn instant_in_range(stat: Stat) -> bool {
    MIN_INSTANT_SECS <= stat.modified_secs <= MAX_INSTANT_SECS && stat.modified_nanos
        < NANOS_PER_SEC
}

/// What is known of the labels of an entry before the machine is asked. An
/// entry without metadata has none. The size is the formatter's text where
/// the length is one that it takes, and missing otherwise. The time is a
/// modification time where the instant is in range, and missing otherwise;
/// which time it is depends on the machine's time zone. Owner and group are
/// whatever the account database says.
pub open spec fn labels_fit(entry: EntryView, labels: LabelsView) -> bool {
    match entry.stat {
        None => labels == (LabelsView { user: None, group: None, size: None, time: None }),
        Some(stat) => {
            &&& labels.size == if stat.len <= MAX_FILE_LEN {
                Some(abbreviated_size(stat.len))
            } else {
                None
            }
            &&& labels.time is Some <==> instant_in_range(stat)
            &&& labels.time matches Some(time) ==> is_timestamp(time)
        },
    }
}

impl Labels {
    /// Asks the machine for the labels of `entry`: the account database for
    /// owner and group, the size formatter for the length and the calendar for
    /// the modification instant. An entry without metadata gets no label.
    pub fn of(entry: &Entry) -> (labels: Labels)
        ensures
            labels_fit(entry@, labels@),
    {
        match entry.stat {
            None => Labels { user: None, group: None, size: None, time: None },
            Some(stat) => {
                let user = user_name(stat.uid);
                let group = group_name(stat.gid);
                let size = if stat.len <= MAX_FILE_LEN {
                    Some(size_text(stat.len))
                } else {
                    None
                };
                let time = if MIN_INSTANT_SECS <= stat.modified_secs && stat.modified_secs
                    <= MAX_INSTANT_SECS && stat.modified_nanos < NANOS_PER_SEC {
                    modified_time(&local_time(stat.modified_secs, stat.modified_nanos as i32))
                } else {
                    None
                };
                Labels { user, group, size, time }
            },
        }
    }
}

/// The record of one entry. Its texts are made once, from the entry as it was
/// read, and after that only ever grow by padding; the target of a link is
/// appended to the name once.
#[derive(Debug)]
pub struct Meta {
    /// The path as it was given.
    pub path: String,
    /// The final component of the path; once `annotated`, a symbolic link's
    /// target follows it.
    pub name: String,
    /// Whether the name has been made ready for the table, with the target
    /// of a link behind it: what is done once is not done again.
    pub annotated: bool,
    /// The permission string, ten characters long.
    pub permission: String,
    /// The name of the group.
    pub group: String,
    /// The name of the owner.
    pub user: String,
    /// The target, where the entry is a symbolic link.
    pub symlink: Option<String>,
    /// The number of the size.
    pub filesize: String,
    /// The unit of the size.
    pub size_uint: String,
    /// The modification time.
    pub time: String,
}

/// A [`Meta`] as a plain value.
pub struct MetaView {
    pub path: Seq<char>,
    pub name: Seq<char>,
    pub annotated: bool,
    pub permission: Seq<char>,
    pub group: Seq<char>,
    pub user: Seq<char>,
    pub symlink: Option<Seq<char>>,
    pub filesize: Seq<char>,
    pub size_uint: Seq<char>,
    pub time: Seq<char>,
}

impl View for Meta {
    type V = MetaView;

    open spec fn view(&self) -> MetaView {
        MetaView {
            path: self.path@,
            name: self.name@,
            annotated: self.annotated,
            permission: self.permission@,
            group: self.group@,
            user: self.user@,
            symlink: text_of(self.symlink),
            filesize: self.filesize@,
            size_uint: self.size_uint@,
            time: self.time@,
        }
    }
}

impl DeepView for Meta {
    type V = MetaView;

    open spec fn deep_view(&self) -> MetaView {
        self@
    }
}

/// The view of a record or of the failure to make one.
pub open spec fn outcome_view(outcome: Result<Meta, ListError>) -> Result<MetaView, ListErrorView> {
    match outcome {
        Ok(meta) => Ok(meta@),
        Err(e) => Err(e@),
    }
}

/// The target of a link as the record holds it.
pub open spec fn link_target(link: OsTextView) -> Option<Seq<char>> {
    match link {
        OsTextView::Text(target) => Some(target),
        _ => None,
    }
}

/// The record of `entry` under the given labels, or the failure. What is
/// missing is looked for in this order: the name, the text of the name, the
/// text of the link's target, the metadata, the owner, the group, the size,
/// the time. Size and time are missing only beyond what the machine can
/// hold: a length that no file offset reaches, an instant whose year does
/// not fit the calendar; such metadata counts as unavailable. Every failure
/// carries the entry's path.
pub open spec fn resolved(entry: EntryView, labels: LabelsView) -> Result<MetaView, ListErrorView> {
    let fail = |kind: ErrorKind| Err::<MetaView, ListErrorView>(ListErrorView { kind, path: entry.path });
    match entry.name {
        OsTextView::Absent => fail(ErrorKind::NameUnreadable),
        OsTextView::Undecodable => fail(ErrorKind::EncodingError),
        OsTextView::Text(name) => {
            if entry.link is Undecodable {
                fail(ErrorKind::EncodingError)
            } else if entry.stat is None {
                fail(ErrorKind::MetadataUnavailable)
            } else if labels.user is None || labels.group is None {
                fail(ErrorKind::IdentityUnresolvable)
            } else if labels.size is None || labels.time is None {
                fail(ErrorKind::MetadataUnavailable)
            } else {
                let stat = entry.stat->0;
                Ok(
                    MetaView {
                        path: entry.path,
                        name,
                        annotated: false,
                        permission: permission_text(stat.is_dir, entry.link is Text, stat.mode),
                        group: labels.group->0,
                        user: labels.user->0,
                        symlink: link_target(entry.link),
                        filesize: size_digits(labels.size->0),
                        size_uint: size_unit(labels.size->0),
                        time: labels.time->0,
                    },
                )
            }
        },
    }
}

/// Whether `outcome` is what resolving `entry` can give: the record or the
/// failure under some labels that fit the entry.
pub open spec fn resolves(entry: EntryView, outcome: Result<MetaView, ListErrorView>) -> bool {
    exists|labels: LabelsView| labels_fit(entry, labels) && outcome == #[trigger] resolved(entry, labels)
}

impl Meta {
    /// Makes the record of `entry` from its labels.
    pub fn from_parts(entry: &Entry, labels: &Labels) -> (outcome: Result<Meta, ListError>)
        ensures
            outcome_view(outcome) == resolved(entry@, labels@),
    {
        let name = match &entry.name {
            OsText::Absent => {
                return Err(ListError::new(ErrorKind::NameUnreadable, entry.path.as_str()));
            },
            OsText::Undecodable => {
                return Err(ListError::new(ErrorKind::EncodingError, entry.path.as_str()));
            },
            OsText::Text(name) => name.clone(),
        };
        let symlink = match &entry.link {
            OsText::Absent => None,
            OsText::Undecodable => {
                return Err(ListError::new(ErrorKind::EncodingError, entry.path.as_str()));
            },
            OsText::Text(target) => Some(target.clone()),
        };
        let stat = match entry.stat {
            Some(stat) => stat,
            None => {
                return Err(ListError::new(ErrorKind::MetadataUnavailable, entry.path.as_str()));
            },
        };
        let (user, group) = match (&labels.user, &labels.group) {
            (Some(user), Some(group)) => (user.clone(), group.clone()),
            _ => {
                return Err(ListError::new(ErrorKind::IdentityUnresolvable, entry.path.as_str()));
            },
        };
        let (size, time) = match (&labels.size, &labels.time) {
            (Some(size), Some(time)) => (size, time.clone()),
            _ => {
                return Err(ListError::new(ErrorKind::MetadataUnavailable, entry.path.as_str()));
            },
        };
        let (filesize, size_uint) = split_size(size.as_str());
        let permission = format_permission(stat.is_dir, symlink.is_some(), stat.mode);
        Ok(
            Meta {
                path: entry.path.clone(),
                name,
                annotated: false,
                permission,
                group,
                user,
                symlink,
                filesize,
                size_uint,
                time,
            },
        )
    }

    /// Resolves `entry` into its record: asks the machine for the labels and
    /// makes the record from them.
    pub fn from_path(entry: &Entry) -> (outcome: Result<Meta, ListError>)
        ensures
            resolves(entry@, outcome_view(outcome)),
    {
        let labels = Labels::of(entry);
        Meta::from_parts(entry, &labels)
    }
}

/// The name as the table shows it: for a symbolic link the name, an arrow and
/// the target; for anything else the name alone.
pub open spec fn with_target(name: Seq<char>, symlink: Option<Seq<char>>) -> Seq<char> {
    match symlink {
        Some(target) => name + " => "@ + target,
        None => name,
    }
}

/// The name of a record as the table shows it. A name that has its target
/// already is left as it is: the target is appended exactly once.
pub open spec fn shown_name(meta: MetaView) -> Seq<char> {
    if meta.annotated {
        meta.name
    } else {
        with_target(meta.name, meta.symlink)
    }
}

/// The record made ready for the table: the link's target follows the name,
/// and group, owner, size and unit are padded to their column widths. Path,
/// permissions and time stay as they are. A record that was made ready
/// before, for the same widths, stays as it is.
pub open spec fn formatted(meta: MetaView, widths: Widths) -> MetaView {
    MetaView {
        name: shown_name(meta),
        annotated: true,
        group: padded(meta.group, widths.group),
        user: padded(meta.user, widths.user),
        filesize: padded(meta.filesize, widths.filesize),
        size_uint: padded(meta.size_uint, widths.sizeuint),
        ..meta
    }
}

/// The line of a record: permissions, group, owner, size, unit, time and name,
/// with one space between each two.
pub open spec fn row_text(meta: MetaView) -> Seq<char> {
    meta.permission + " "@ + meta.group + " "@ + meta.user + " "@ + meta.filesize + " "@
        + meta.size_uint + " "@ + meta.time + " "@ + meta.name
}

impl Meta {
    /// Pads the group to its column width.
    fn format_group(&mut self, maxinfo: &MaxInfo)
        ensures
            final(self)@ == (MetaView {
                group: padded(old(self)@.group, maxinfo@.group),
                ..old(self)@
            }),
    {
        pad(&mut self.group, maxinfo.group);
    }

    /// Pads the owner to its column width.
    fn format_user(&mut self, maxinfo: &MaxInfo)
        ensures
            final(self)@ == (MetaView {
                user: padded(old(self)@.user, maxinfo@.user),
                ..old(self)@
            }),
    {
        pad(&mut self.user, maxinfo.user);
    }

    /// Pads the number of the size to its column width.
    fn format_filesize(&mut self, maxinfo: &MaxInfo)
        ensures
            final(self)@ == (MetaView {
                filesize: padded(old(self)@.filesize, maxinfo@.filesize),
                ..old(self)@
            }),
    {
        pad(&mut self.filesize, maxinfo.filesize);
    }

    /// Pads the unit of the size to its column width.
    fn format_uint(&mut self, maxinfo: &MaxInfo)
        ensures
            final(self)@ == (MetaView {
                size_uint: padded(old(self)@.size_uint, maxinfo@.sizeuint),
                ..old(self)@
            }),
    {
        pad(&mut self.size_uint, maxinfo.sizeuint);
    }

    /// Appends the arrow and the target to the name of a symbolic link,
    /// unless that has been done before.
    fn format_symlink(&mut self)
        ensures
            final(self)@ == (MetaView {
                name: shown_name(old(self)@),
                annotated: true,
                ..old(self)@
            }),
    {
        if !self.annotated {
            match &self.symlink {
                Some(link) => {
                    self.name.append(" => ");
                    self.name.append(link.as_str());
                },
                None => {},
            }
            self.annotated = true;
        }
    }

    /// Makes the record ready for the table whose column widths are `dirinfo`.
    /// Nothing is cut off: a field longer than its column stays as it is.
    /// Doing it again changes nothing: the target of a link is appended
    /// once, and a padded field is as long as its column already.
    pub fn format_meta(&mut self, dirinfo: &MaxInfo)
        ensures
            final(self)@ == formatted(old(self)@, dirinfo@),
    {
        self.format_symlink();
        self.format_group(dirinfo);
        self.format_user(dirinfo);
        self.format_filesize(dirinfo);
        self.format_uint(dirinfo);
    }

    /// The line of the record as the table shows it.
    pub fn row(&self) -> (line: String)
        ensures
            line@ == row_text(self@),
    {
        let mut line = self.permission.clone();
        line.append(" ");
        line.append(self.group.as_str());
        line.append(" ");
        line.append(self.user.as_str());
        line.append(" ");
        line.append(self.filesize.as_str());
        line.append(" ");
        line.append(self.size_uint.as_str());
        line.append(" ");
        line.append(self.time.as_str());
        line.append(" ");
        line.append(self.name.as_str());
        line
    }
}

/// After formatting, every padded field is at least as long as its column is
/// wide, and exactly that long where it fitted the column before. The text it
/// had stays in front: padding only adds.
pub proof fn lemma_formatted_fields(meta: MetaView, widths: Widths)
    ensures
        text_len(formatted(meta, widths).group) >= widths.group,
        text_len(formatted(meta, widths).user) >= widths.user,
        text_len(formatted(meta, widths).filesize) >= widths.filesize,
        text_len(formatted(meta, widths).size_uint) >= widths.sizeuint,
        text_len(meta.group) <= widths.group ==> text_len(formatted(meta, widths).group)
            == widths.group,
        text_len(meta.user) <= widths.user ==> text_len(formatted(meta, widths).user)
            == widths.user,
        text_len(meta.filesize) <= widths.filesize ==> text_len(
            formatted(meta, widths).filesize,
        ) == widths.filesize,
        text_len(meta.size_uint) <= widths.sizeuint ==> text_len(
            formatted(meta, widths).size_uint,
        ) == widths.sizeuint,
        meta.group.is_prefix_of(formatted(meta, widths).group),
        meta.user.is_prefix_of(formatted(meta, widths).user),
        meta.filesize.is_prefix_of(formatted(meta, widths).filesize),
        meta.size_uint.is_prefix_of(formatted(meta, widths).size_uint),
{
    lemma_padded_len(meta.group, widths.group);
    lemma_padded_len(meta.user, widths.user);
    lemma_padded_len(meta.filesize, widths.filesize);
    lemma_padded_len(meta.size_uint, widths.sizeuint);
}

/// What every outcome of resolving an entry has, whatever the machine
/// answered. A failure carries the entry's path. The name is missing exactly
/// where the outcome is `NameUnreadable`, and the name or the link's target is
/// not text exactly where it is `EncodingError`. With name and target in
/// order, the outcome is `MetadataUnavailable` where the metadata is missing;
/// where it is there, with length and instant in range, only the account
/// database can still fail the entry. A record holds the entry's path, name
/// and target, its permission string, the size as the formatter wrote it,
/// split at the first space, and a modification time.
pub proof fn lemma_resolves(entry: EntryView, outcome: Result<MetaView, ListErrorView>)
    requires
        resolves(entry, outcome),
    ensures
        outcome matches Err(e) ==> e.path == entry.path,
        entry.name is Absent <==> (outcome matches Err(e) && e.kind == ErrorKind::NameUnreadable),
        (entry.name is Undecodable || (entry.name is Text && entry.link is Undecodable)) <==> (
        outcome matches Err(e) && e.kind == ErrorKind::EncodingError),
        entry.name is Text && !(entry.link is Undecodable) && entry.stat is None ==> (
        outcome matches Err(e) && e.kind == ErrorKind::MetadataUnavailable),
        (entry.name is Text && !(entry.link is Undecodable) && entry.stat is Some
            && entry.stat->0.len <= MAX_FILE_LEN && instant_in_range(entry.stat->0)) ==> (
        outcome is Ok || (outcome matches Err(e) && e.kind == ErrorKind::IdentityUnresolvable)),
        outcome matches Err(e) ==> e.kind != ErrorKind::DirectoryUnreadable && e.kind
            != ErrorKind::TerminalGeometryUnavailable,
        outcome matches Ok(meta) ==> {
            &&& entry.stat matches Some(stat)
            &&& entry.name == OsTextView::Text(meta.name)
            &&& stat.len <= MAX_FILE_LEN
            &&& instant_in_range(stat)
            &&& meta.path == entry.path
            &&& meta.symlink == link_target(entry.link)
            &&& meta.permission == permission_text(stat.is_dir, entry.link is Text, stat.mode)
            &&& meta.filesize == size_digits(abbreviated_size(stat.len))
            &&& meta.size_uint == size_unit(abbreviated_size(stat.len))
            &&& is_timestamp(meta.time)
        },
{
}

/// In the long view a symbolic link shows as its name, an arrow and its
/// target, and anything else as its name alone; the permission string of a
/// link starts with `l`, that of a directory that is no link with `d`.
pub proof fn lemma_link_row(entry: EntryView, labels: LabelsView, widths: Widths)
    requires
        resolved(entry, labels) is Ok,
    ensures
        ({
            let shown = formatted(resolved(entry, labels)->Ok_0, widths);
            &&& entry.name matches OsTextView::Text(name)
            &&& entry.stat matches Some(stat)
            &&& shown.name == match entry.link {
                OsTextView::Text(target) => name + " => "@ + target,
                _ => name,
            }
            &&& shown.name.is_suffix_of(row_text(shown))
            &&& shown.permission[0] == if entry.link is Text {
                'l'
            } else if stat.is_dir {
                'd'
            } else {
                '-'
            }
        }),
{
}

/// Padding a second time to the same width changes nothing.
pub proof fn lemma_padded_idempotent(s: Seq<char>, width: nat)
    ensures
        padded(padded(s, width), width) == padded(s, width),
{
    lemma_padded_len(s, width);
}

/// Making a record ready a second time, for the same widths, changes nothing:
/// the target of a link stands behind the name exactly once, however often
/// the record is formatted, and every other field is as it was after the
/// first time.
pub proof fn lemma_formatted_idempotent(meta: MetaView, widths: Widths)
    ensures
        formatted(formatted(meta, widths), widths) == formatted(meta, widths),
        formatted(meta, widths).name == shown_name(meta),
        !meta.annotated ==> formatted(meta, widths).name == with_target(meta.name, meta.symlink),
{
    lemma_padded_idempotent(meta.group, widths.group);
    lemma_padded_idempotent(meta.user, widths.user);
    lemma_padded_idempotent(meta.filesize, widths.filesize);
    lemma_padded_idempotent(meta.size_uint, widths.sizeuint);
}

} // verus!
