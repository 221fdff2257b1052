use crate::hashes::AgentPubKey;
use crate::header::{clone_header_hash, header_hash_eq, HeaderHash};
use vstd::prelude::*;

verus! {

/// How top priorities of a project are decided.
#[derive(Clone, Copy, PartialEq, Eq, Structural, Debug)]
pub enum PriorityMode {
    Universal,
    Vote,
}

impl PriorityMode {
    /// The user-interface name of a priority mode.
    pub open spec fn spec_ui_name(self) -> Seq<char> {
        match self {
            PriorityMode::Universal => "Universal"@,
            PriorityMode::Vote => "Vote"@,
        }
    }

    /// The user-interface name of this priority mode.
    pub fn ui_name(self) -> (r: String)
        ensures
            r@ == self.spec_ui_name(),
    {
        match self {
            PriorityMode::Universal => "Universal".to_owned(),
            PriorityMode::Vote => "Vote".to_owned(),
        }
    }

    /// The priority mode a user-interface name denotes; anything
    /// unrecognized falls back to voting.
    pub fn from_ui_name(s: &String) -> (r: PriorityMode)
        ensures
            r == if s@ == "Universal"@ {
                PriorityMode::Universal
            } else {
                PriorityMode::Vote
            },
    {
        if s.eq(&"Universal".to_owned()) {
            PriorityMode::Universal
        } else {
            PriorityMode::Vote
        }
    }
}

/// The two user-interface names round-trip: reading a mode's own name back
/// yields the same mode.
pub proof fn lemma_priority_mode_round_trip(m: PriorityMode)
    ensures
        (if m.spec_ui_name() == "Universal"@ {
            PriorityMode::Universal
        } else {
            PriorityMode::Vote
        }) == m,
{
    reveal_strlit("Universal");
    reveal_strlit("Vote");
    assert("Universal"@.len() == 9);
    assert("Vote"@.len() == 4);
}

/// A comment that an agent attached to a goal.
#[derive(Debug)]
pub struct GoalComment {
    pub goal_address: HeaderHash,
    pub content: String,
    pub agent_address: AgentPubKey,
    pub unix_timestamp: u64,
}

/// A relationship between a goal and an agent: the agent is assigned to,
/// responsible for, or working on the goal.
#[derive(Debug)]
pub struct GoalMember {
    pub goal_address: HeaderHash,
    /// The assignee.
    pub agent_address: AgentPubKey,
    /// The agent who authored this entry.
    pub user_edit_hash: AgentPubKey,
    pub unix_timestamp: u64,
    pub is_imported: bool,
}

/// The single metadata record of a project.
#[derive(Debug)]
pub struct ProjectMeta {
    pub creator_address: AgentPubKey,
    pub created_at: u64,
    pub name: String,
    pub image: Option<String>,
    pub passphrase: String,
    pub is_imported: bool,
    pub priority_mode: PriorityMode,
    pub top_priority_goals: Vec<HeaderHash>,
}

/// An agent who has joined the project.
#[derive(Clone, Copy, PartialEq, Eq, Structural, Debug)]
pub struct Member {
    pub address: AgentPubKey,
}

/// Immutable content of one record: one variant per declared record type.
#[derive(Debug)]
pub enum Entry {
    GoalComment(GoalComment),
    GoalMember(GoalMember),
    ProjectMeta(ProjectMeta),
    Member(Member),
}

/// The declared record types this engine is configured with.
#[derive(Clone, Copy, PartialEq, Eq, Structural, Debug)]
pub enum EntryType {
    GoalComment,
    GoalMember,
    ProjectMeta,
    Member,
}

// --- mathematical views ---

/// Mathematical model of a goal comment.
#[verifier::ext_equal]
pub struct GoalCommentView {
    pub goal_address: HeaderHash,
    pub content: Seq<char>,
    pub agent_address: AgentPubKey,
    pub unix_timestamp: u64,
}

/// Mathematical model of project metadata.
#[verifier::ext_equal]
pub struct ProjectMetaView {
    pub creator_address: AgentPubKey,
    pub created_at: u64,
    pub name: Seq<char>,
    pub image: Option<Seq<char>>,
    pub passphrase: Seq<char>,
    pub is_imported: bool,
    pub priority_mode: PriorityMode,
    pub top_priority_goals: Seq<HeaderHash>,
}

/// Mathematical model of an entry's content.
#[verifier::ext_equal]
pub enum EntryView {
    GoalComment(GoalCommentView),
    GoalMember(GoalMember),
    ProjectMeta(ProjectMetaView),
    Member(Member),
}

impl View for GoalComment {
    type V = GoalCommentView;

    open spec fn view(&self) -> GoalCommentView {
        GoalCommentView {
            goal_address: self.goal_address,
            content: self.content@,
            agent_address: self.agent_address,
            unix_timestamp: self.unix_timestamp,
        }
    }
}

impl View for ProjectMeta {
    type V = ProjectMetaView;

    open spec fn view(&self) -> ProjectMetaView {
        ProjectMetaView {
            creator_address: self.creator_address,
            created_at: self.created_at,
            name: self.name@,
            image: match self.image {
                Some(s) => Some(s@),
                None => None,
            },
            passphrase: self.passphrase@,
            is_imported: self.is_imported,
            priority_mode: self.priority_mode,
            top_priority_goals: self.top_priority_goals@,
        }
    }
}

impl View for Entry {
    type V = EntryView;

    open spec fn view(&self) -> EntryView {
        match self {
            Entry::GoalComment(c) => EntryView::GoalComment(c@),
            Entry::GoalMember(m) => EntryView::GoalMember(*m),
            Entry::ProjectMeta(p) => EntryView::ProjectMeta(p@),
            Entry::Member(m) => EntryView::Member(*m),
        }
    }
}

// --- constructors ---

impl GoalComment {
    pub fn new(
        goal_address: HeaderHash,
        content: String,
        agent_address: AgentPubKey,
        unix_timestamp: u64,
    ) -> (r: GoalComment)
        ensures
            r@ == (GoalCommentView {
                goal_address,
                content: content@,
                agent_address,
                unix_timestamp,
            }),
    {
        GoalComment { goal_address, content, agent_address, unix_timestamp }
    }
}

impl GoalMember {
    pub fn new(
        goal_address: HeaderHash,
        agent_address: AgentPubKey,
        user_edit_hash: AgentPubKey,
        unix_timestamp: u64,
        is_imported: bool,
    ) -> (r: GoalMember)
        ensures
            r == (GoalMember {
                goal_address,
                agent_address,
                user_edit_hash,
                unix_timestamp,
                is_imported,
            }),
    {
        GoalMember { goal_address, agent_address, user_edit_hash, unix_timestamp, is_imported }
    }
}

impl ProjectMeta {
    pub fn new(
        creator_address: AgentPubKey,
        created_at: u64,
        name: String,
        image: Option<String>,
        passphrase: String,
        is_imported: bool,
        priority_mode: PriorityMode,
        top_priority_goals: Vec<HeaderHash>,
    ) -> (r: ProjectMeta)
        ensures
            r@ == (ProjectMetaView {
                creator_address,
                created_at,
                name: name@,
                image: match image {
                    Some(s) => Some(s@),
                    None => None,
                },
                passphrase: passphrase@,
                is_imported,
                priority_mode,
                top_priority_goals: top_priority_goals@,
            }),
    {
        ProjectMeta {
            creator_address,
            created_at,
            name,
            image,
            passphrase,
            is_imported,
            priority_mode,
            top_priority_goals,
        }
    }
}

// --- per-record-type configuration ---

/// The record type an entry belongs to.
pub open spec fn spec_type_of(e: EntryView) -> EntryType {
    match e {
        EntryView::GoalComment(_) => EntryType::GoalComment,
        EntryView::GoalMember(_) => EntryType::GoalMember,
        EntryView::ProjectMeta(_) => EntryType::ProjectMeta,
        EntryView::Member(_) => EntryType::Member,
    }
}

/// The record type an entry belongs to.
pub fn type_of(e: &Entry) -> (t: EntryType)
    ensures
        t == spec_type_of(e@),
{
    match e {
        Entry::GoalComment(_) => EntryType::GoalComment,
        Entry::GoalMember(_) => EntryType::GoalMember,
        Entry::ProjectMeta(_) => EntryType::ProjectMeta,
        Entry::Member(_) => EntryType::Member,
    }
}

/// The well-known index path name declared for a record type.
pub open spec fn spec_path_name(t: EntryType) -> Seq<char> {
    match t {
        EntryType::GoalComment => "goal_comment"@,
        EntryType::GoalMember => "goal_member"@,
        EntryType::ProjectMeta => "project_meta"@,
        EntryType::Member => "member"@,
    }
}

/// The well-known index path name declared for a record type.
pub fn path_name(t: EntryType) -> (r: String)
    ensures
        r@ == spec_path_name(t),
{
    match t {
        EntryType::GoalComment => "goal_comment".to_owned(),
        EntryType::GoalMember => "goal_member".to_owned(),
        EntryType::ProjectMeta => "project_meta".to_owned(),
        EntryType::Member => "member".to_owned(),
    }
}

/// Whether at most one reachable record of this type may exist under its
/// path: true only for project metadata.
pub open spec fn spec_is_singleton(t: EntryType) -> bool {
    t == EntryType::ProjectMeta
}

/// Whether at most one reachable record of this type may exist under its path.
pub fn is_singleton(t: EntryType) -> (r: bool)
    ensures
        r == spec_is_singleton(t),
{
    matches!(t, EntryType::ProjectMeta)
}

/// Whether the record type's edit policy permits deletion. Project metadata
/// is kept for the project's whole life; every other type may be archived.
pub open spec fn spec_delete_allowed(t: EntryType) -> bool {
    t != EntryType::ProjectMeta
}

/// Whether the record type's edit policy permits deletion.
pub fn delete_allowed(t: EntryType) -> (r: bool)
    ensures
        r == spec_delete_allowed(t),
{
    !matches!(t, EntryType::ProjectMeta)
}

/// Whether creates of this type also link the author's identity hash to the
/// new entry, so that "all records created by agent A" can be listed.
pub open spec fn spec_links_agent(t: EntryType) -> bool {
    t == EntryType::Member
}

/// Whether creates of this type also link the author's identity hash to the
/// new entry.
pub fn links_agent(t: EntryType) -> (r: bool)
    ensures
        r == spec_links_agent(t),
{
    matches!(t, EntryType::Member)
}

// --- content hashing ---

/// An entry's content hash: a deterministic, collision-free function of the
/// entry's canonical serialized content, independent of author and time.
///
/// The deployed substrate computes a cryptographic digest over the serialized
/// bytes; the engine relies only on determinism and injectivity, so the model
/// takes the canonical content itself as the address.
#[derive(Debug)]
pub struct EntryHash {
    pub content: Box<Entry>,
}

impl View for EntryHash {
    type V = EntryView;

    open spec fn view(&self) -> EntryView {
        self.content@
    }
}

/// The content hash of an entry, at the level of the mathematical model.
pub open spec fn spec_hash_entry(e: EntryView) -> EntryView {
    e
}

/// Computes the content hash of an entry.
pub fn hash_entry(e: &Entry) -> (r: EntryHash)
    ensures
        r@ == spec_hash_entry(e@),
{
    EntryHash { content: Box::new(clone_entry(e)) }
}

/// Content hashing depends on the serialized content alone: two entries have
/// the same content hash exactly when their canonical content is identical —
/// never on who authored them or when.
pub proof fn lemma_hash_entry_deterministic(e1: Entry, e2: Entry)
    ensures
        (spec_hash_entry(e1@) == spec_hash_entry(e2@)) <==> (e1@ == e2@),
{
}

// --- the externally-returned projection of a revision ---

/// What a read hands back to a caller: a revision's entry together with the
/// addresses of its header and of its content. Never persisted separately;
/// derived from header and entry at read time.
#[derive(Debug)]
pub struct WireElement {
    pub entry: Entry,
    pub header_hash: HeaderHash,
    pub entry_hash: EntryHash,
}

/// Mathematical model of a wire element.
#[verifier::ext_equal]
pub struct WireElementView {
    pub entry: EntryView,
    pub header_hash: HeaderHash,
    pub entry_hash: EntryView,
}

impl View for WireElement {
    type V = WireElementView;

    open spec fn view(&self) -> WireElementView {
        WireElementView {
            entry: self.entry@,
            header_hash: self.header_hash,
            entry_hash: self.entry_hash@,
        }
    }
}

// --- equality and copies, usable from executable code ---

/// The mathematical value of an optional string.
pub open spec fn view_opt_string(o: Option<String>) -> Option<Seq<char>> {
    match o {
        Some(s) => Some(s@),
        None => None,
    }
}

/// Structural equality on strings already present as an operator; options of
/// strings need the match written out.
pub fn opt_string_eq(a: &Option<String>, b: &Option<String>) -> (r: bool)
    ensures
        r == (view_opt_string(*a) == view_opt_string(*b)),
{
    match (a, b) {
        (Some(x), Some(y)) => x.eq(y),
        (None, None) => true,
        _ => false,
    }
}

/// Elementwise equality of two lists of header addresses.
pub fn header_hash_vec_eq(a: &Vec<HeaderHash>, b: &Vec<HeaderHash>) -> (r: bool)
    ensures
        r == (a@ == b@),
{
    if a.len() != b.len() {
        assert(a@ != b@);
        return false;
    }
    let n = a.len();
    let mut i: usize = 0;
    while i < n
        invariant
            n == a@.len() == b@.len(),
            i <= n,
            forall|j: int| 0 <= j < i ==> a@[j] == b@[j],
        decreases n - i,
    {
        if !header_hash_eq(&a[i], &b[i]) {
            return false;
        }
        i += 1;
    }
    proof {
        assert(a@ =~= b@);
    }
    true
}

/// Content equality of two entries: true exactly when the views agree.
pub fn entry_eq(a: &Entry, b: &Entry) -> (r: bool)
    ensures
        r == (a@ == b@),
{
    match (a, b) {
        (Entry::GoalComment(x), Entry::GoalComment(y)) => {
            let r = header_hash_eq(&x.goal_address, &y.goal_address) && x.content == y.content
                && x.agent_address.id == y.agent_address.id
                && x.unix_timestamp == y.unix_timestamp;
            proof {
                if r {
                    assert(x@ =~= y@);
                }
            }
            r
        },
        (Entry::GoalMember(x), Entry::GoalMember(y)) => {
            header_hash_eq(&x.goal_address, &y.goal_address) && x.agent_address.id
                == y.agent_address.id && x.user_edit_hash.id == y.user_edit_hash.id
                && x.unix_timestamp == y.unix_timestamp && x.is_imported == y.is_imported
        },
        (Entry::ProjectMeta(x), Entry::ProjectMeta(y)) => {
            let r = x.creator_address.id == y.creator_address.id && x.created_at == y.created_at
                && x.name == y.name && opt_string_eq(&x.image, &y.image) && x.passphrase
                == y.passphrase && x.is_imported == y.is_imported && x.priority_mode
                == y.priority_mode && header_hash_vec_eq(
                &x.top_priority_goals,
                &y.top_priority_goals,
            );
            proof {
                if r {
                    assert(x@ =~= y@);
                }
            }
            r
        },
        (Entry::Member(x), Entry::Member(y)) => x.address.id == y.address.id,
        _ => false,
    }
}

/// Content equality of two entry hashes.
pub fn entry_hash_eq(a: &EntryHash, b: &EntryHash) -> (r: bool)
    ensures
        r == (a@ == b@),
{
    entry_eq(&a.content, &b.content)
}

/// An exact copy of an option of a string.
pub fn clone_opt_string(a: &Option<String>) -> (r: Option<String>)
    ensures
        view_opt_string(r) == view_opt_string(*a),
{
    match a {
        Some(s) => Some(s.clone()),
        None => None,
    }
}

/// An exact copy of a list of header addresses.
pub fn clone_header_hash_vec(a: &Vec<HeaderHash>) -> (r: Vec<HeaderHash>)
    ensures
        r@ == a@,
{
    let n = a.len();
    let mut out: Vec<HeaderHash> = Vec::new();
    let mut i: usize = 0;
    while i < n
        invariant
            n == a@.len(),
            i <= n,
            out@ == a@.take(i as int),
        decreases n - i,
    {
        out.push(clone_header_hash(&a[i]));
        proof {
            assert(out@ =~= a@.take(i as int + 1));
        }
        i += 1;
    }
    proof {
        assert(a@.take(n as int) =~= a@);
    }
    out
}

/// An exact copy of an entry: same view, hence same content hash.
pub fn clone_entry(e: &Entry) -> (r: Entry)
    ensures
        r@ == e@,
{
    match e {
        Entry::GoalComment(c) => {
            let r = Entry::GoalComment(
                GoalComment {
                    goal_address: clone_header_hash(&c.goal_address),
                    content: c.content.clone(),
                    agent_address: c.agent_address,
                    unix_timestamp: c.unix_timestamp,
                },
            );
            proof {
                assert(r@ =~= e@);
            }
            r
        },
        Entry::GoalMember(m) => Entry::GoalMember(
            GoalMember {
                goal_address: clone_header_hash(&m.goal_address),
                agent_address: m.agent_address,
                user_edit_hash: m.user_edit_hash,
                unix_timestamp: m.unix_timestamp,
                is_imported: m.is_imported,
            },
        ),
        Entry::ProjectMeta(p) => {
            let r = Entry::ProjectMeta(
                ProjectMeta {
                    creator_address: p.creator_address,
                    created_at: p.created_at,
                    name: p.name.clone(),
                    image: clone_opt_string(&p.image),
                    passphrase: p.passphrase.clone(),
                    is_imported: p.is_imported,
                    priority_mode: p.priority_mode,
                    top_priority_goals: clone_header_hash_vec(&p.top_priority_goals),
                },
            );
            proof {
                assert(r@ =~= e@);
            }
            r
        },
        Entry::Member(m) => Entry::Member(Member { address: m.address }),
    }
}

/// An exact copy of an entry hash.
pub fn clone_entry_hash(a: &EntryHash) -> (r: EntryHash)
    ensures
        r@ == a@,
{
    EntryHash { content: Box::new(clone_entry(&a.content)) }
}

/// Content equality of two wire elements.
pub fn wire_element_eq(a: &WireElement, b: &WireElement) -> (r: bool)
    ensures
        r == (a@ == b@),
{
    let r = entry_eq(&a.entry, &b.entry) && header_hash_eq(&a.header_hash, &b.header_hash)
        && entry_hash_eq(&a.entry_hash, &b.entry_hash);
    proof {
        if r {
            assert(a@ =~= b@);
        }
    }
    r
}

/// An exact copy of a wire element.
pub fn clone_wire_element(a: &WireElement) -> (r: WireElement)
    ensures
        r@ == a@,
{
    let r = WireElement {
        entry: clone_entry(&a.entry),
        header_hash: clone_header_hash(&a.header_hash),
        entry_hash: clone_entry_hash(&a.entry_hash),
    };
    proof {
        assert(r@ =~= a@);
    }
    r
}

} // verus!
