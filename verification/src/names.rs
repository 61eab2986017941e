//! Full resource names and their validation.

use crate::error::{invalid, Error, ErrorView};
use crate::error;
use crate::text;
use vstd::prelude::*;
use vstd::string::*;

verus! {

/// The value of a subscription's `topic` once that topic was deleted. Not a resource path, and
/// always a valid [`TopicName`].
pub const DELETED_TOPIC: &'static str = "_deleted-topic_";

const MIN_ID_LEN: usize = 3;

const MAX_ID_LEN: usize = 255;

/// An ASCII letter.
pub open spec fn is_letter(c: char) -> bool {
    ('a' <= c && c <= 'z') || ('A' <= c && c <= 'Z')
}

/// A character that a resource id may hold.
pub open spec fn is_id_char(c: char) -> bool {
    is_letter(c) || ('0' <= c && c <= '9') || c == '-' || c == '_' || c == '.' || c == '~' || c
        == '+' || c == '%'
}

/// Every character of `id` may stand in a resource id.
pub open spec fn only_id_chars(id: Seq<char>) -> bool {
    forall|i: int| 0 <= i < id.len() ==> is_id_char(#[trigger] id[i])
}

/// What is wrong with a resource id, if anything is: it has 3 to 255 characters, starts with a
/// letter, holds only `[A-Za-z0-9-_.~+%]` and does not start with `goog`.
pub open spec fn id_error(id: Seq<char>) -> Option<ErrorView> {
    if !(3 <= id.len() <= 255) {
        Some(
            error::invalid_argument(
                "name"@,
                "resource id must be 3-255 characters, got "@ + text::dec(id.len()),
            ),
        )
    } else if !is_letter(id[0]) {
        Some(
            error::invalid_argument("name"@, "resource id must start with an ASCII letter"@),
        )
    } else if !only_id_chars(id) {
        Some(
            error::invalid_argument(
                "name"@,
                "resource id must only contain [A-Za-z0-9-_.~+%]"@,
            ),
        )
    } else if text::has_prefix(id, "goog"@) {
        Some(
            error::invalid_argument("name"@, "resource id must not start with \"goog\""@),
        )
    } else {
        None
    }
}

/// What is wrong with a full name `projects/{project}/{kind}/{id}`, if anything is.
pub open spec fn name_error(name: Seq<char>, kind: Seq<char>) -> Option<ErrorView> {
    let parts = text::segments(name);
    if parts.len() != 4 || parts[0] != "projects"@ || parts[2] != kind {
        Some(
            error::invalid_argument(
                "name"@,
                "name must match projects/{project}/"@ + kind + "/{id}, got \""@ + name + "\""@,
            ),
        )
    } else if parts[1].len() == 0 {
        Some(error::invalid_argument("name"@, "project_id must not be empty"@))
    } else {
        id_error(parts[3])
    }
}

/// What is wrong with a topic name, if anything is. The deleted-topic sentinel is a valid one.
pub open spec fn topic_name_error(name: Seq<char>) -> Option<ErrorView> {
    if name == DELETED_TOPIC@ {
        None
    } else {
        name_error(name, "topics"@)
    }
}

/// What is wrong with a subscription name, if anything is.
pub open spec fn subscription_name_error(name: Seq<char>) -> Option<ErrorView> {
    name_error(name, "subscriptions"@)
}

/// What is wrong with a snapshot name, if anything is.
pub open spec fn snapshot_name_error(name: Seq<char>) -> Option<ErrorView> {
    name_error(name, "snapshots"@)
}

/// What is wrong with a project name `projects/{project_id}`, if anything is.
pub open spec fn project_error(name: Seq<char>) -> Option<ErrorView> {
    let parts = text::segments(name);
    if parts.len() != 2 || parts[0] != "projects"@ {
        Some(
            error::invalid_argument(
                "name"@,
                "name must match projects/{project_id}, got \""@ + name + "\""@,
            ),
        )
    } else if parts[1].len() == 0 {
        Some(error::invalid_argument("name"@, "project_id must not be empty"@))
    } else {
        None
    }
}

/// The full name of a resource.
pub open spec fn full_name(project: Seq<char>, kind: Seq<char>, id: Seq<char>) -> Seq<char> {
    "projects/"@ + project + "/"@ + kind + "/"@ + id
}

fn letter(c: char) -> (r: bool)
    ensures
        r == is_letter(c),
{
    ('a' <= c && c <= 'z') || ('A' <= c && c <= 'Z')
}

fn is_valid_id_char(c: char) -> (r: bool)
    ensures
        r == is_id_char(c),
{
    letter(c) || ('0' <= c && c <= '9') || c == '-' || c == '_' || c == '.' || c == '~' || c == '+'
        || c == '%'
}

fn validate_resource_id(id: &str) -> (r: Result<(), Error>)
    ensures
        error::checked(r, id_error(id@)),
{
    let chars = text::chars_of(id);
    let len: usize = chars.len();
    if len < MIN_ID_LEN || len > MAX_ID_LEN {
        return Err(
            invalid(
                "name",
                text::cat2(
                    "resource id must be 3-255 characters, got ",
                    text::usize_text(len).as_str(),
                ),
            ),
        );
    }
    if !letter(chars[0]) {
        return Err(
            invalid("name", String::from_str("resource id must start with an ASCII letter")),
        );
    }
    let mut i: usize = 0;
    while i < chars.len()
        invariant
            i <= chars.len(),
            chars@ == id@,
            3 <= id@.len() <= 255,
            is_letter(id@[0]),
            forall|j: int| 0 <= j < i ==> is_id_char(#[trigger] id@[j]),
        decreases chars.len() - i,
    {
        if !is_valid_id_char(chars[i]) {
            assert(!is_id_char(id@[i as int]));
            return Err(
                invalid(
                    "name",
                    String::from_str("resource id must only contain [A-Za-z0-9-_.~+%]"),
                ),
            );
        }
        i = i + 1;
    }
    if text::str_has_prefix(id, "goog") {
        return Err(
            invalid("name", String::from_str("resource id must not start with \"goog\"")),
        );
    }
    Ok(())
}

fn validate_full_name(full_name: &str, kind: &str) -> (r: Result<(), Error>)
    ensures
        error::checked(r, name_error(full_name@, kind@)),
{
    let parts = text::split_slashes(full_name);
    assert forall|i: int| 0 <= i < parts.len() implies #[trigger] text::segments(full_name@)[i]
        == parts[i]@ by {
        assert(text::texts(parts@)[i] == parts[i]@);
    }
    if parts.len() != 4 || !text::str_equal(parts[0].as_str(), "projects") || !text::str_equal(
        parts[2].as_str(),
        kind,
    ) {
        return Err(
            invalid(
                "name",
                text::cat5(
                    "name must match projects/{project}/",
                    kind,
                    "/{id}, got \"",
                    full_name,
                    "\"",
                ),
            ),
        );
    }
    if parts[1].as_str().is_empty() {
        return Err(invalid("name", String::from_str("project_id must not be empty")));
    }
    validate_resource_id(parts[3].as_str())
}

proof fn lemma_four_parts(s: Seq<char>)
    requires
        text::segments(s).len() == 4,
    ensures
        ({
            let p = text::segments(s);
            let a = p[0].len() + 1;
            let b = a + p[1].len() + 1 + p[2].len() + 1;
            &&& b + p[3].len() == s.len()
            &&& s.subrange(a as int, (a + p[1].len()) as int) == p[1]
            &&& s.subrange(b as int, s.len() as int) == p[3]
        }),
{
    let p = text::segments(s);
    text::lemma_join_segments(s);
    let p3 = p.drop_last();
    let p2 = p3.drop_last();
    let p1 = p2.drop_last();
    let j2 = p[0].push('/') + p[1];
    let j3 = j2.push('/') + p[2];
    assert(text::join_segments(p1) == p[0]);
    assert(text::join_segments(p2) == j2);
    assert(text::join_segments(p3) == j3);
    assert(s == j3.push('/') + p[3]);
    let a = p[0].len() + 1;
    let b = a + p[1].len() + 1 + p[2].len() + 1;
    assert(s.subrange(a as int, (a + p[1].len()) as int) =~= p[1]);
    assert(s.subrange(b as int, s.len() as int) =~= p[3]);
}

fn part_text<'a>(full_name: &'a str, index: usize) -> (r: &'a str)
    requires
        text::segments(full_name@).len() == 4,
        index == 1 || index == 3,
    ensures
        r@ == text::segments(full_name@)[index as int],
{
    let parts = text::split_slashes(full_name);
    proof {
        lemma_four_parts(full_name@);
        assert(text::texts(parts@)[0] == parts[0]@);
        assert(text::texts(parts@)[1] == parts[1]@);
        assert(text::texts(parts@)[2] == parts[2]@);
        assert(text::texts(parts@)[3] == parts[3]@);
    }
    let total: usize = full_name.unicode_len();
    let first: usize = parts[0].as_str().unicode_len() + 1;
    let second: usize = parts[1].as_str().unicode_len();
    if index == 1 {
        full_name.substring_char(first, first + second)
    } else {
        let last: usize = parts[3].as_str().unicode_len();
        full_name.substring_char(total - last, total)
    }
}

/// A full subscription name: `projects/{project}/subscriptions/{subscription}`.
#[derive(Debug, PartialEq, Eq, Hash)]
pub struct SubscriptionName {
    name: String,
}

impl View for SubscriptionName {
    type V = Seq<char>;

    closed spec fn view(&self) -> Seq<char> {
        self.name@
    }
}

impl Clone for SubscriptionName {
    fn clone(&self) -> (r: Self)
        ensures
            r@ == self@,
    {
        proof {
            use_type_invariant(self);
        }
        SubscriptionName { name: self.name.clone() }
    }
}

impl SubscriptionName {
    #[verifier::type_invariant]
    spec fn valid(self) -> bool {
        subscription_name_error(self@) is None
    }

    /// Parses and validates a full subscription name.
    pub fn parse(full_name: &str) -> (r: Result<Self, Error>)
        ensures
            match subscription_name_error(full_name@) {
                Some(e) => r is Err && r->Err_0@ == e,
                None => r is Ok && r->Ok_0@ == full_name@,
            },
    {
        match validate_full_name(full_name, "subscriptions") {
            Ok(_) => Ok(SubscriptionName { name: String::from_str(full_name) }),
            Err(e) => Err(e),
        }
    }

    /// The full resource path.
    pub fn as_str(&self) -> (r: &str)
        ensures
            r@ == self@,
    {
        self.name.as_str()
    }

    /// The full resource path.
    pub fn to_string(&self) -> (s: String)
        ensures
            s@ == self@,
    {
        self.name.clone()
    }

    /// The project part of the name.
    pub fn project_id(&self) -> (r: &str)
        ensures
            r@ == text::segments(self@)[1],
    {
        proof {
            use_type_invariant(self);
        }
        part_text(self.name.as_str(), 1)
    }

    /// The last part of the name.
    pub fn resource_id(&self) -> (r: &str)
        ensures
            r@ == text::segments(self@)[3],
    {
        proof {
            use_type_invariant(self);
        }
        part_text(self.name.as_str(), 3)
    }
}

/// A full snapshot name: `projects/{project}/snapshots/{snapshot}`.
#[derive(Debug, PartialEq, Eq, Hash)]
pub struct SnapshotName {
    name: String,
}

impl View for SnapshotName {
    type V = Seq<char>;

    closed spec fn view(&self) -> Seq<char> {
        self.name@
    }
}

impl Clone for SnapshotName {
    fn clone(&self) -> (r: Self)
        ensures
            r@ == self@,
    {
        proof {
            use_type_invariant(self);
        }
        SnapshotName { name: self.name.clone() }
    }
}

impl SnapshotName {
    #[verifier::type_invariant]
    spec fn valid(self) -> bool {
        snapshot_name_error(self@) is None
    }

    /// Parses and validates a full snapshot name.
    pub fn parse(full_name: &str) -> (r: Result<Self, Error>)
        ensures
            match snapshot_name_error(full_name@) {
                Some(e) => r is Err && r->Err_0@ == e,
                None => r is Ok && r->Ok_0@ == full_name@,
            },
    {
        match validate_full_name(full_name, "snapshots") {
            Ok(_) => Ok(SnapshotName { name: String::from_str(full_name) }),
            Err(e) => Err(e),
        }
    }

    /// The full resource path.
    pub fn as_str(&self) -> (r: &str)
        ensures
            r@ == self@,
    {
        self.name.as_str()
    }

    /// The full resource path.
    pub fn to_string(&self) -> (s: String)
        ensures
            s@ == self@,
    {
        self.name.clone()
    }

    /// The project part of the name.
    pub fn project_id(&self) -> (r: &str)
        ensures
            r@ == text::segments(self@)[1],
    {
        proof {
            use_type_invariant(self);
        }
        part_text(self.name.as_str(), 1)
    }

    /// The last part of the name.
    pub fn resource_id(&self) -> (r: &str)
        ensures
            r@ == text::segments(self@)[3],
    {
        proof {
            use_type_invariant(self);
        }
        part_text(self.name.as_str(), 3)
    }
}

/// A full topic name: `projects/{project}/topics/{topic}`, or the deleted-topic sentinel.
#[derive(Debug, PartialEq, Eq, Hash)]
pub struct TopicName {
    name: String,
}

impl View for TopicName {
    type V = Seq<char>;

    closed spec fn view(&self) -> Seq<char> {
        self.name@
    }
}

impl Clone for TopicName {
    fn clone(&self) -> (r: Self)
        ensures
            r@ == self@,
    {
        proof {
            use_type_invariant(self);
        }
        TopicName { name: self.name.clone() }
    }
}

/// The project part of a topic name; empty for the deleted-topic sentinel.
pub open spec fn topic_project(name: Seq<char>) -> Seq<char> {
    if name == DELETED_TOPIC@ {
        Seq::empty()
    } else {
        text::segments(name)[1]
    }
}

/// The last part of a topic name; the deleted-topic sentinel is its own.
pub open spec fn topic_id_part(name: Seq<char>) -> Seq<char> {
    if name == DELETED_TOPIC@ {
        name
    } else {
        text::segments(name)[3]
    }
}

impl TopicName {
    #[verifier::type_invariant]
    spec fn valid(self) -> bool {
        topic_name_error(self@) is None
    }

    /// Parses and validates a full topic name, or accepts the deleted-topic sentinel.
    pub fn parse(full_name: &str) -> (r: Result<Self, Error>)
        ensures
            match topic_name_error(full_name@) {
                Some(e) => r is Err && r->Err_0@ == e,
                None => r is Ok && r->Ok_0@ == full_name@,
            },
    {
        if text::str_equal(full_name, DELETED_TOPIC) {
            return Ok(TopicName { name: String::from_str(full_name) });
        }
        match validate_full_name(full_name, "topics") {
            Ok(_) => Ok(TopicName { name: String::from_str(full_name) }),
            Err(e) => Err(e),
        }
    }

    /// The full resource path, or the sentinel.
    pub fn as_str(&self) -> (r: &str)
        ensures
            r@ == self@,
    {
        self.name.as_str()
    }

    /// The full resource path, or the sentinel.
    pub fn to_string(&self) -> (s: String)
        ensures
            s@ == self@,
    {
        self.name.clone()
    }

    /// Whether this is the deleted-topic sentinel.
    pub fn is_deleted_sentinel(&self) -> (r: bool)
        ensures
            r == (self@ == DELETED_TOPIC@),
    {
        text::str_equal(self.name.as_str(), DELETED_TOPIC)
    }

    /// The project part of the name, empty for the sentinel.
    pub fn project_id(&self) -> (r: &str)
        ensures
            r@ == topic_project(self@),
    {
        proof {
            use_type_invariant(self);
        }
        if self.is_deleted_sentinel() {
            proof {
                reveal_strlit("");
                assert(""@ =~= Seq::empty());
            }
            ""
        } else {
            part_text(self.name.as_str(), 1)
        }
    }

    /// The last part of the name, or the sentinel itself.
    pub fn resource_id(&self) -> (r: &str)
        ensures
            r@ == topic_id_part(self@),
    {
        proof {
            use_type_invariant(self);
        }
        if self.is_deleted_sentinel() {
            DELETED_TOPIC
        } else {
            part_text(self.name.as_str(), 3)
        }
    }
}

/// A project: `projects/{project_id}`.
#[derive(Debug, PartialEq, Eq, Hash)]
pub struct ProjectId {
    name: String,
}

impl View for ProjectId {
    type V = Seq<char>;

    closed spec fn view(&self) -> Seq<char> {
        self.name@
    }
}

impl Clone for ProjectId {
    fn clone(&self) -> (r: Self)
        ensures
            r@ == self@,
    {
        proof {
            use_type_invariant(self);
        }
        ProjectId { name: self.name.clone() }
    }
}

impl ProjectId {
    #[verifier::type_invariant]
    spec fn valid(self) -> bool {
        project_error(self@) is None
    }

    /// Parses `projects/{project_id}` with a project id that is not empty.
    pub fn parse(full_name: &str) -> (r: Result<Self, Error>)
        ensures
            match project_error(full_name@) {
                Some(e) => r is Err && r->Err_0@ == e,
                None => r is Ok && r->Ok_0@ == full_name@,
            },
    {
        let parts = text::split_slashes(full_name);
        assert forall|i: int| 0 <= i < parts.len() implies #[trigger] text::segments(full_name@)[i]
            == parts[i]@ by {
            assert(text::texts(parts@)[i] == parts[i]@);
        }
        if parts.len() != 2 || !text::str_equal(parts[0].as_str(), "projects") {
            return Err(
                invalid(
                    "name",
                    text::cat3("name must match projects/{project_id}, got \"", full_name, "\""),
                ),
            );
        }
        if parts[1].as_str().is_empty() {
            return Err(invalid("name", String::from_str("project_id must not be empty")));
        }
        Ok(ProjectId { name: String::from_str(full_name) })
    }

    /// The full resource path.
    pub fn as_str(&self) -> (r: &str)
        ensures
            r@ == self@,
    {
        self.name.as_str()
    }

    /// The full resource path.
    pub fn to_string(&self) -> (s: String)
        ensures
            s@ == self@,
    {
        self.name.clone()
    }

    /// The project id.
    pub fn project_id(&self) -> (r: &str)
        ensures
            r@ == text::segments(self@)[1],
    {
        proof {
            use_type_invariant(self);
            let p = text::segments(self@);
            text::lemma_join_segments(self@);
            reveal_strlit("projects");
            assert(text::join_segments(p.drop_last()) == p[0]);
            assert(self@ == p[0].push('/') + p[1]);
            assert(self@.subrange(9, self@.len() as int) =~= p[1]);
        }
        let total: usize = self.name.as_str().unicode_len();
        self.name.as_str().substring_char(9, total)
    }

    /// The project id.
    pub fn resource_id(&self) -> (r: &str)
        ensures
            r@ == text::segments(self@)[1],
    {
        self.project_id()
    }
}

/// A name put together from a project and a valid id parses, and gives the two back.
pub proof fn law_full_name_round_trip(project: Seq<char>, kind: Seq<char>, id: Seq<char>)
    requires
        project.len() > 0,
        text::no_slash(project),
        text::no_slash(kind),
        id_error(id) is None,
    ensures
        name_error(full_name(project, kind, id), kind) is None,
        text::segments(full_name(project, kind, id)) == seq!["projects"@, project, kind, id],
{
    reveal_strlit("projects/");
    reveal_strlit("projects");
    reveal_strlit("/");
    let name = full_name(project, kind, id);
    assert forall|i: int| 0 <= i < id.len() implies #[trigger] id[i] != '/' by {
        assert(is_id_char(id[i]));
    }
    let a = "projects"@.push('/') + project;
    let b = a.push('/') + kind;
    assert(name =~= b.push('/') + id);
    text::lemma_segments_concat("projects"@, project);
    text::lemma_segments_concat(a, kind);
    text::lemma_segments_concat(b, id);
    text::lemma_segments_of_plain("projects"@);
    text::lemma_segments_of_plain(project);
    text::lemma_segments_of_plain(kind);
    text::lemma_segments_of_plain(id);
    assert(text::segments(name) =~= seq!["projects"@, project, kind, id]);
}

} // verus!
