//! Plain data types of the code graph and of the knowledge store.
use vstd::prelude::*;

verus! {

// ---------------------------------------------------------------------------
// FileType
// ---------------------------------------------------------------------------

/// The kind of file a graph node was extracted from.
#[derive(Debug, Clone, Copy)]
pub enum FileType {
    Code,
    Document,
    Paper,
    Image,
    Video,
    Rationale,
}

/// The lower-case name of a file type, as stored and displayed.
pub open spec fn file_type_name(t: FileType) -> Seq<char> {
    match t {
        FileType::Code => seq!['c', 'o', 'd', 'e'],
        FileType::Document => seq!['d', 'o', 'c', 'u', 'm', 'e', 'n', 't'],
        FileType::Paper => seq!['p', 'a', 'p', 'e', 'r'],
        FileType::Image => seq!['i', 'm', 'a', 'g', 'e'],
        FileType::Video => seq!['v', 'i', 'd', 'e', 'o'],
        FileType::Rationale => seq!['r', 'a', 't', 'i', 'o', 'n', 'a', 'l', 'e'],
    }
}

/// The ASCII lower-case form of a character; other characters are unchanged.
pub open spec fn ascii_lower(c: char) -> char {
    if 'A' <= c && c <= 'Z' {
        ((c as u32) + 32) as char
    } else {
        c
    }
}

/// Case-insensitive equality of `s` and an all-lower-case ASCII word `w`.
///
/// For the ASCII words this library compares against, Unicode lower-casing and
/// ASCII lower-casing agree on every input: no non-ASCII character has a
/// one-character lower-case form among the ASCII letters used (the Kelvin sign,
/// which lower-cases to `k`, is the only one, and none of the words holds a `k`).
pub open spec fn eq_ignore_case(s: Seq<char>, w: Seq<char>) -> bool {
    &&& s.len() == w.len()
    &&& forall|i: int| 0 <= i < s.len() ==> ascii_lower(#[trigger] s[i]) == w[i]
}

/// Whether `s` equals `w` ignoring ASCII case (see [`eq_ignore_case`]).
pub fn eq_ignore_case_exec(s: &[char], w: &[char]) -> (r: bool)
    ensures
        r == eq_ignore_case(s@, w@),
{
    if s.len() != w.len() {
        return false;
    }
    let n = s.len();
    for i in 0..n
        invariant
            n == s@.len(),
            n == w@.len(),
            forall|j: int| 0 <= j < i ==> ascii_lower(#[trigger] s@[j]) == w@[j],
    {
        let c = s[i];
        let lc = if 'A' <= c && c <= 'Z' {
            ((c as u32) + 32) as u8 as char
        } else {
            c
        };
        assert(lc == ascii_lower(c)) by {
            if 'A' <= c && c <= 'Z' {
                assert(((c as u32) + 32) < 256);
            }
        }
        if lc != w[i] {
            return false;
        }
    }
    true
}

/// `Some` of the file type whose name equals `s` ignoring case, `None` otherwise.
pub open spec fn spec_file_type_from(s: Seq<char>) -> Option<FileType> {
    if eq_ignore_case(s, file_type_name(FileType::Code)) {
        Some(FileType::Code)
    } else if eq_ignore_case(s, file_type_name(FileType::Document)) {
        Some(FileType::Document)
    } else if eq_ignore_case(s, file_type_name(FileType::Paper)) {
        Some(FileType::Paper)
    } else if eq_ignore_case(s, file_type_name(FileType::Image)) {
        Some(FileType::Image)
    } else if eq_ignore_case(s, file_type_name(FileType::Video)) {
        Some(FileType::Video)
    } else if eq_ignore_case(s, file_type_name(FileType::Rationale)) {
        Some(FileType::Rationale)
    } else {
        None
    }
}

impl FileType {
    /// The name of the file type (`code`, `document`, ...).
    pub fn name(&self) -> (r: &'static str)
        ensures
            r@ == file_type_name(*self),
    {
        proof {
            reveal_strlit("code");
            reveal_strlit("document");
            reveal_strlit("paper");
            reveal_strlit("image");
            reveal_strlit("video");
            reveal_strlit("rationale");
        }
        match self {
            FileType::Code => "code",
            FileType::Document => "document",
            FileType::Paper => "paper",
            FileType::Image => "image",
            FileType::Video => "video",
            FileType::Rationale => "rationale",
        }
    }

    /// Parses a file type name, ignoring case.
    pub fn from_str_loose(s: &str) -> (r: Option<FileType>)
        ensures
            r == spec_file_type_from(s@),
    {
        let cs = crate::text::str_chars(s);
        let code = ['c', 'o', 'd', 'e'];
        let document = ['d', 'o', 'c', 'u', 'm', 'e', 'n', 't'];
        let paper = ['p', 'a', 'p', 'e', 'r'];
        let image = ['i', 'm', 'a', 'g', 'e'];
        let video = ['v', 'i', 'd', 'e', 'o'];
        let rationale = ['r', 'a', 't', 'i', 'o', 'n', 'a', 'l', 'e'];
        assert(code@ == file_type_name(FileType::Code));
        assert(document@ == file_type_name(FileType::Document));
        assert(paper@ == file_type_name(FileType::Paper));
        assert(image@ == file_type_name(FileType::Image));
        assert(video@ == file_type_name(FileType::Video));
        assert(rationale@ == file_type_name(FileType::Rationale));
        if eq_ignore_case_exec(cs.as_slice(), &code) {
            Some(FileType::Code)
        } else if eq_ignore_case_exec(cs.as_slice(), &document) {
            Some(FileType::Document)
        } else if eq_ignore_case_exec(cs.as_slice(), &paper) {
            Some(FileType::Paper)
        } else if eq_ignore_case_exec(cs.as_slice(), &image) {
            Some(FileType::Image)
        } else if eq_ignore_case_exec(cs.as_slice(), &video) {
            Some(FileType::Video)
        } else if eq_ignore_case_exec(cs.as_slice(), &rationale) {
            Some(FileType::Rationale)
        } else {
            None
        }
    }
}

// ---------------------------------------------------------------------------
// Confidence
// ---------------------------------------------------------------------------

/// How an edge or node was obtained.
#[derive(Debug, Clone, Copy)]
#[allow(non_camel_case_types)]
pub enum Confidence {
    EXTRACTED,
    INFERRED,
    AMBIGUOUS,
}

/// The upper-case name of a confidence level.
pub open spec fn confidence_name(c: Confidence) -> Seq<char> {
    match c {
        Confidence::EXTRACTED => seq!['E', 'X', 'T', 'R', 'A', 'C', 'T', 'E', 'D'],
        Confidence::INFERRED => seq!['I', 'N', 'F', 'E', 'R', 'R', 'E', 'D'],
        Confidence::AMBIGUOUS => seq!['A', 'M', 'B', 'I', 'G', 'U', 'O', 'U', 'S'],
    }
}

/// `Some` of the level whose name is exactly `s` (case matters), `None` otherwise.
pub open spec fn spec_confidence_from(s: Seq<char>) -> Option<Confidence> {
    if s == confidence_name(Confidence::EXTRACTED) {
        Some(Confidence::EXTRACTED)
    } else if s == confidence_name(Confidence::INFERRED) {
        Some(Confidence::INFERRED)
    } else if s == confidence_name(Confidence::AMBIGUOUS) {
        Some(Confidence::AMBIGUOUS)
    } else {
        None
    }
}

/// The bit pattern of a level's default confidence score: 1.0 for
/// `EXTRACTED`, 0.5 for `INFERRED`, 0.2 for `AMBIGUOUS`.
pub open spec fn default_score_bits_of(c: Confidence) -> u64 {
    match c {
        Confidence::EXTRACTED => 0x3FF0_0000_0000_0000u64,
        Confidence::INFERRED => 0x3FE0_0000_0000_0000u64,
        Confidence::AMBIGUOUS => 0x3FC9_9999_9999_999Au64,
    }
}

impl Confidence {
    /// The bit pattern of the level's default confidence score (see
    /// [`default_score_bits_of`]).
    pub fn default_score_bits(&self) -> (r: u64)
        ensures
            r == default_score_bits_of(*self),
    {
        match self {
            Confidence::EXTRACTED => 0x3FF0_0000_0000_0000u64,
            Confidence::INFERRED => 0x3FE0_0000_0000_0000u64,
            Confidence::AMBIGUOUS => 0x3FC9_9999_9999_999Au64,
        }
    }

    /// The name of the level (`EXTRACTED`, `INFERRED`, `AMBIGUOUS`).
    pub fn name(&self) -> (r: &'static str)
        ensures
            r@ == confidence_name(*self),
    {
        proof {
            reveal_strlit("EXTRACTED");
            reveal_strlit("INFERRED");
            reveal_strlit("AMBIGUOUS");
        }
        match self {
            Confidence::EXTRACTED => "EXTRACTED",
            Confidence::INFERRED => "INFERRED",
            Confidence::AMBIGUOUS => "AMBIGUOUS",
        }
    }

    /// Parses an exact, upper-case confidence name.
    pub fn from_str_loose(s: &str) -> (r: Option<Confidence>)
        ensures
            r == spec_confidence_from(s@),
    {
        let cs = crate::text::str_chars(s);
        let e = ['E', 'X', 'T', 'R', 'A', 'C', 'T', 'E', 'D'];
        let i = ['I', 'N', 'F', 'E', 'R', 'R', 'E', 'D'];
        let a = ['A', 'M', 'B', 'I', 'G', 'U', 'O', 'U', 'S'];
        assert(e@ == confidence_name(Confidence::EXTRACTED));
        assert(i@ == confidence_name(Confidence::INFERRED));
        assert(a@ == confidence_name(Confidence::AMBIGUOUS));
        if crate::text::chars_eq(cs.as_slice(), &e) {
            Some(Confidence::EXTRACTED)
        } else if crate::text::chars_eq(cs.as_slice(), &i) {
            Some(Confidence::INFERRED)
        } else if crate::text::chars_eq(cs.as_slice(), &a) {
            Some(Confidence::AMBIGUOUS)
        } else {
            None
        }
    }
}

// ---------------------------------------------------------------------------
// Views of string lists
// ---------------------------------------------------------------------------

/// The character sequences of a list of strings.
pub open spec fn strings_view(v: Seq<String>) -> Seq<Seq<char>> {
    Seq::new(v.len(), |i: int| v[i]@)
}

/// A field-by-field copy of a list of strings.
pub fn clone_strings(v: &Vec<String>) -> (r: Vec<String>)
    ensures
        strings_view(r@) == strings_view(v@),
{
    let mut r: Vec<String> = Vec::new();
    let n = v.len();
    for i in 0..n
        invariant
            n == v@.len(),
            r@.len() == i,
            forall|j: int| 0 <= j < i ==> r@[j]@ == v@[j]@,
    {
        r.push(v[i].clone());
    }
    assert(strings_view(r@) =~= strings_view(v@));
    r
}

// ---------------------------------------------------------------------------
// Code graph records
// ---------------------------------------------------------------------------

/// A code entity. Numeric scores that only the rendering layer reads are kept
/// outside the library.
#[derive(Debug)]
pub struct Node {
    pub id: String,
    pub label: String,
    pub file_type: FileType,
    pub source_file: String,
    pub source_location: Option<String>,
    pub confidence: Option<Confidence>,
    pub community: Option<usize>,
    pub norm_label: Option<String>,
    pub degree: Option<usize>,
    pub uuid: Option<String>,
    pub fingerprint: Option<String>,
    pub logical_key: Option<String>,
    pub body_hash: Option<String>,
}

/// A relationship between two code entities.
#[derive(Debug)]
pub struct Edge {
    pub source: String,
    pub target: String,
    pub relation: String,
    pub confidence: Confidence,
    pub source_file: String,
    pub source_location: Option<String>,
    /// The edge's confidence score, as the bit pattern of a float.
    pub confidence_score_bits: Option<u64>,
    /// The edge's weight, as the bit pattern of a float.
    pub weight_bits: u64,
    pub original_src: Option<String>,
    pub original_tgt: Option<String>,
}

/// A group of nodes that belong together.
#[derive(Debug)]
pub struct Hyperedge {
    pub id: String,
    pub label: String,
    pub nodes: Vec<String>,
    pub confidence: Confidence,
    pub source_file: Option<String>,
}

/// An unresolved cross-file call, kept for a second resolution pass.
#[derive(Debug)]
pub struct RawCall {
    pub caller_nid: String,
    pub callee: String,
    pub source_file: String,
    pub source_location: Option<String>,
}

/// Everything extracted from a corpus.
#[derive(Debug)]
pub struct ExtractionResult {
    pub nodes: Vec<Node>,
    pub edges: Vec<Edge>,
    pub hyperedges: Vec<Hyperedge>,
    pub input_tokens: u64,
    pub output_tokens: u64,
    pub raw_calls: Vec<RawCall>,
    pub error: Option<String>,
}

impl ExtractionResult {
    /// An extraction with nothing in it.
    pub fn empty() -> (r: ExtractionResult)
        ensures
            r.nodes@.len() == 0,
            r.edges@.len() == 0,
            r.hyperedges@.len() == 0,
            r.raw_calls@.len() == 0,
            r.input_tokens == 0,
            r.output_tokens == 0,
            r.error is None,
    {
        ExtractionResult {
            nodes: Vec::new(),
            edges: Vec::new(),
            hyperedges: Vec::new(),
            input_tokens: 0,
            output_tokens: 0,
            raw_calls: Vec::new(),
            error: None,
        }
    }
}

/// Files found in a corpus, by kind.
#[derive(Debug)]
pub struct DetectedFiles {
    pub code: Vec<String>,
    pub document: Vec<String>,
    pub paper: Vec<String>,
    pub image: Vec<String>,
    pub video: Vec<String>,
}

/// The result of scanning a corpus.
#[derive(Debug)]
pub struct DetectionResult {
    pub files: DetectedFiles,
    pub total_files: usize,
    pub total_words: usize,
    pub needs_graph: bool,
    pub warning: Option<String>,
    pub skipped_sensitive: Vec<String>,
    pub engramignore_patterns: usize,
}

// ---------------------------------------------------------------------------
// Knowledge store records
// ---------------------------------------------------------------------------

/// One piece of learned knowledge.
///
/// `confidence_bits` is the IEEE-754 bit pattern of the entry's confidence
/// (a number in 0..=1). The library carries it unchanged; where an operation
/// changes a confidence, the function says so in its result and the caller
/// applies the arithmetic.
#[derive(Debug)]
pub struct KnowledgeEntry {
    pub uuid: String,
    pub title: String,
    pub knowledge_type: String,
    pub description: String,
    pub confidence_bits: u64,
    pub observations: u32,
    pub tags: Vec<String>,
    pub scope: String,
    pub status: String,
    pub source: String,
    pub last_validated_at: u64,
    pub applies_when: String,
    pub supersedes: String,
    pub superseded_by: String,
    pub evidence: String,
    pub created_at: u64,
    pub updated_at: u64,
    pub author: String,
    pub trigger: String,
    pub fetch_count: u32,
    pub last_fetched: u64,
}

/// The mathematical value of a [`KnowledgeEntry`].
pub struct EntryView {
    pub uuid: Seq<char>,
    pub title: Seq<char>,
    pub knowledge_type: Seq<char>,
    pub description: Seq<char>,
    pub confidence_bits: u64,
    pub observations: u32,
    pub tags: Seq<Seq<char>>,
    pub scope: Seq<char>,
    pub status: Seq<char>,
    pub source: Seq<char>,
    pub last_validated_at: u64,
    pub applies_when: Seq<char>,
    pub supersedes: Seq<char>,
    pub superseded_by: Seq<char>,
    pub evidence: Seq<char>,
    pub created_at: u64,
    pub updated_at: u64,
    pub author: Seq<char>,
    pub trigger: Seq<char>,
    pub fetch_count: u32,
    pub last_fetched: u64,
}

impl View for KnowledgeEntry {
    type V = EntryView;

    open spec fn view(&self) -> EntryView {
        EntryView {
            uuid: self.uuid@,
            title: self.title@,
            knowledge_type: self.knowledge_type@,
            description: self.description@,
            confidence_bits: self.confidence_bits,
            observations: self.observations,
            tags: strings_view(self.tags@),
            scope: self.scope@,
            status: self.status@,
            source: self.source@,
            last_validated_at: self.last_validated_at,
            applies_when: self.applies_when@,
            supersedes: self.supersedes@,
            superseded_by: self.superseded_by@,
            evidence: self.evidence@,
            created_at: self.created_at,
            updated_at: self.updated_at,
            author: self.author@,
            trigger: self.trigger@,
            fetch_count: self.fetch_count,
            last_fetched: self.last_fetched,
        }
    }
}

impl KnowledgeEntry {
    /// A field-by-field copy.
    pub fn duplicate(&self) -> (r: KnowledgeEntry)
        ensures
            r@ == self@,
    {
        KnowledgeEntry {
            uuid: self.uuid.clone(),
            title: self.title.clone(),
            knowledge_type: self.knowledge_type.clone(),
            description: self.description.clone(),
            confidence_bits: self.confidence_bits,
            observations: self.observations,
            tags: clone_strings(&self.tags),
            scope: self.scope.clone(),
            status: self.status.clone(),
            source: self.source.clone(),
            last_validated_at: self.last_validated_at,
            applies_when: self.applies_when.clone(),
            supersedes: self.supersedes.clone(),
            superseded_by: self.superseded_by.clone(),
            evidence: self.evidence.clone(),
            created_at: self.created_at,
            updated_at: self.updated_at,
            author: self.author.clone(),
            trigger: self.trigger.clone(),
            fetch_count: self.fetch_count,
            last_fetched: self.last_fetched,
        }
    }
}

/// The views of a list of entries.
pub open spec fn entries_view(v: Seq<KnowledgeEntry>) -> Seq<EntryView> {
    Seq::new(v.len(), |i: int| v[i]@)
}

/// The word stored in `target_type` for a link between two knowledge entries.
pub open spec fn knowledge_word() -> Seq<char> {
    seq!['k', 'n', 'o', 'w', 'l', 'e', 'd', 'g', 'e']
}

/// A link from a knowledge entry to a code node or to another knowledge entry.
///
/// `confidence_bits` is the IEEE-754 bit pattern of the link's confidence; the
/// library carries it unchanged and gives new links the pattern of `1.0`.
#[derive(Debug)]
pub struct KnowledgeLink {
    pub knowledge_uuid: String,
    pub node_uuid: String,
    pub relation: String,
    pub target_type: String,
    pub confidence_bits: u64,
    pub created_at: u64,
    pub linked_body_hash: String,
    pub linked_logical_key: String,
    pub source: String,
    pub reason: String,
}

/// The mathematical value of a [`KnowledgeLink`].
pub struct LinkView {
    pub knowledge_uuid: Seq<char>,
    pub node_uuid: Seq<char>,
    pub relation: Seq<char>,
    pub target_type: Seq<char>,
    pub confidence_bits: u64,
    pub created_at: u64,
    pub linked_body_hash: Seq<char>,
    pub linked_logical_key: Seq<char>,
    pub source: Seq<char>,
    pub reason: Seq<char>,
}

impl LinkView {
    /// True for a link whose target is another knowledge entry.
    pub open spec fn is_knowledge_link(self) -> bool {
        self.target_type == knowledge_word()
    }
}

impl View for KnowledgeLink {
    type V = LinkView;

    open spec fn view(&self) -> LinkView {
        LinkView {
            knowledge_uuid: self.knowledge_uuid@,
            node_uuid: self.node_uuid@,
            relation: self.relation@,
            target_type: self.target_type@,
            confidence_bits: self.confidence_bits,
            created_at: self.created_at,
            linked_body_hash: self.linked_body_hash@,
            linked_logical_key: self.linked_logical_key@,
            source: self.source@,
            reason: self.reason@,
        }
    }
}

/// The bit pattern of the confidence `1.0` (IEEE-754 binary64).
pub const FULL_CONFIDENCE_BITS: u64 = 0x3FF0_0000_0000_0000u64;

/// The bit pattern of the float 1.0, the weight of an ordinary edge.
pub const WEIGHT_ONE_BITS: u64 = 0x3FF0_0000_0000_0000u64;

impl KnowledgeLink {
    /// True for a link whose target is another knowledge entry.
    pub fn is_knowledge_link(&self) -> (r: bool)
        ensures
            r == self@.is_knowledge_link(),
    {
        proof {
            reveal_strlit("knowledge");
        }
        assert("knowledge"@ =~= knowledge_word());
        crate::text::str_eq(self.target_type.as_str(), "knowledge")
    }

    /// A field-by-field copy.
    pub fn duplicate(&self) -> (r: KnowledgeLink)
        ensures
            r@ == self@,
    {
        KnowledgeLink {
            knowledge_uuid: self.knowledge_uuid.clone(),
            node_uuid: self.node_uuid.clone(),
            relation: self.relation.clone(),
            target_type: self.target_type.clone(),
            confidence_bits: self.confidence_bits,
            created_at: self.created_at,
            linked_body_hash: self.linked_body_hash.clone(),
            linked_logical_key: self.linked_logical_key.clone(),
            source: self.source.clone(),
            reason: self.reason.clone(),
        }
    }
}

/// The views of a list of links.
pub open spec fn links_view(v: Seq<KnowledgeLink>) -> Seq<LinkView> {
    Seq::new(v.len(), |i: int| v[i]@)
}

/// An entry of the review queue.
#[derive(Debug)]
pub struct ReviewQueueItem {
    pub knowledge_uuid: String,
    pub reason: String,
    pub created_at: u64,
    pub priority: u8,
    pub completed: bool,
}

/// The mathematical value of a [`ReviewQueueItem`].
pub struct ReviewView {
    pub knowledge_uuid: Seq<char>,
    pub reason: Seq<char>,
    pub created_at: u64,
    pub priority: u8,
    pub completed: bool,
}

impl View for ReviewQueueItem {
    type V = ReviewView;

    open spec fn view(&self) -> ReviewView {
        ReviewView {
            knowledge_uuid: self.knowledge_uuid@,
            reason: self.reason@,
            created_at: self.created_at,
            priority: self.priority,
            completed: self.completed,
        }
    }
}

impl ReviewQueueItem {
    /// A field-by-field copy.
    pub fn duplicate(&self) -> (r: ReviewQueueItem)
        ensures
            r@ == self@,
    {
        ReviewQueueItem {
            knowledge_uuid: self.knowledge_uuid.clone(),
            reason: self.reason.clone(),
            created_at: self.created_at,
            priority: self.priority,
            completed: self.completed,
        }
    }
}

/// The views of a review queue.
pub open spec fn queue_view(v: Seq<ReviewQueueItem>) -> Seq<ReviewView> {
    Seq::new(v.len(), |i: int| v[i]@)
}

/// The whole store: code graph, knowledge, links and the review queue.
#[derive(Debug)]
pub struct KodexData {
    pub extraction: ExtractionResult,
    pub knowledge: Vec<KnowledgeEntry>,
    pub links: Vec<KnowledgeLink>,
    pub review_queue: Vec<ReviewQueueItem>,
}

/// Errors of the library's operations.
#[derive(Debug)]
pub enum KodexError {
    /// No knowledge entry has this UUID.
    UuidNotFound(String),
    /// `superseded_by` names a UUID that no entry has.
    SupersededByNotFound(String),
    /// The source of a knowledge link does not exist.
    SourceNotFound(String),
    /// The target of a knowledge link does not exist.
    TargetNotFound(String),
    /// A description longer than the cap, with its length in characters.
    DescriptionTooLong(usize),
    /// A URL that the fetcher refuses.
    UrlValidation(crate::security::url::UrlError),
    /// An extraction that does not follow the schema, with all its errors.
    Validation(String),
    /// A workspace or registry problem, described in words.
    Other(String),
    /// A merge that would shrink a project's graph from the first count of
    /// nodes to less than half of it: the project, the old and the new count.
    ShrinkGuard(String, usize, usize),
}

} // verus!
