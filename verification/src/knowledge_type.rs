//! The categories of learnable knowledge and their names.
use vstd::prelude::*;
use vstd::string::StringExecFns;

verus! {

/// Categories of learnable knowledge. `Custom` holds any other name as is.
#[derive(Debug)]
pub enum KnowledgeType {
    Architecture,
    Pattern,
    Decision,
    Convention,
    Coupling,
    Domain,
    Preference,
    BugPattern,
    TechDebt,
    Ops,
    Api,
    Performance,
    Roadmap,
    Context,
    Lesson,
    Custom(String),
}

/// The mathematical value of a [`KnowledgeType`]: the variant's position
/// (15 for a custom type) and, for a custom type, its name.
pub open spec fn kt_view(t: &KnowledgeType) -> (int, Seq<char>) {
    match t {
        KnowledgeType::Architecture => (0, seq![]),
        KnowledgeType::Pattern => (1, seq![]),
        KnowledgeType::Decision => (2, seq![]),
        KnowledgeType::Convention => (3, seq![]),
        KnowledgeType::Coupling => (4, seq![]),
        KnowledgeType::Domain => (5, seq![]),
        KnowledgeType::Preference => (6, seq![]),
        KnowledgeType::BugPattern => (7, seq![]),
        KnowledgeType::TechDebt => (8, seq![]),
        KnowledgeType::Ops => (9, seq![]),
        KnowledgeType::Api => (10, seq![]),
        KnowledgeType::Performance => (11, seq![]),
        KnowledgeType::Roadmap => (12, seq![]),
        KnowledgeType::Context => (13, seq![]),
        KnowledgeType::Lesson => (14, seq![]),
        KnowledgeType::Custom(s) => (15, s@),
    }
}

/// The names of the built-in categories, by position.
pub open spec fn builtin_names() -> Seq<Seq<char>> {
    seq![
        "architecture"@,
        "pattern"@,
        "decision"@,
        "convention"@,
        "coupling"@,
        "domain"@,
        "preference"@,
        "bug_pattern"@,
        "tech_debt"@,
        "ops"@,
        "api"@,
        "performance"@,
        "roadmap"@,
        "context"@,
        "lesson"@,
    ]
}

/// The name of a category: a built-in one's snake-case name, a custom one's
/// own name.
pub open spec fn kt_name(v: (int, Seq<char>)) -> Seq<char> {
    if 0 <= v.0 < 15 {
        builtin_names()[v.0]
    } else {
        v.1
    }
}

/// The category that a name stands for: the built-in category of that name,
/// or a custom one holding the name.
pub open spec fn kt_parse(s: Seq<char>) -> (int, Seq<char>) {
    let i = crate::seqs::first_where(builtin_names(), crate::graph::is_id(s));
    if i >= 0 {
        (i, seq![])
    } else {
        (15, s)
    }
}

impl KnowledgeType {
    /// The category's name (what `Display` shows).
    pub fn name(&self) -> (r: String)
        ensures
            r@ == kt_name(kt_view(self)),
    {
        proof {
            reveal_strlit("architecture");
            reveal_strlit("pattern");
            reveal_strlit("decision");
            reveal_strlit("convention");
            reveal_strlit("coupling");
            reveal_strlit("domain");
            reveal_strlit("preference");
            reveal_strlit("bug_pattern");
            reveal_strlit("tech_debt");
            reveal_strlit("ops");
            reveal_strlit("api");
            reveal_strlit("performance");
            reveal_strlit("roadmap");
            reveal_strlit("context");
            reveal_strlit("lesson");
        }
        match self {
            KnowledgeType::Architecture => String::from_str("architecture"),
            KnowledgeType::Pattern => String::from_str("pattern"),
            KnowledgeType::Decision => String::from_str("decision"),
            KnowledgeType::Convention => String::from_str("convention"),
            KnowledgeType::Coupling => String::from_str("coupling"),
            KnowledgeType::Domain => String::from_str("domain"),
            KnowledgeType::Preference => String::from_str("preference"),
            KnowledgeType::BugPattern => String::from_str("bug_pattern"),
            KnowledgeType::TechDebt => String::from_str("tech_debt"),
            KnowledgeType::Ops => String::from_str("ops"),
            KnowledgeType::Api => String::from_str("api"),
            KnowledgeType::Performance => String::from_str("performance"),
            KnowledgeType::Roadmap => String::from_str("roadmap"),
            KnowledgeType::Context => String::from_str("context"),
            KnowledgeType::Lesson => String::from_str("lesson"),
            KnowledgeType::Custom(s) => s.clone(),
        }
    }
}

/// The category named `s` (see [`kt_parse`]).
pub fn parse_knowledge_type(s: &str) -> (r: KnowledgeType)
    ensures
        kt_view(&r) == kt_parse(s@),
{
    proof {
        reveal_strlit("architecture");
        reveal_strlit("pattern");
        reveal_strlit("decision");
        reveal_strlit("convention");
        reveal_strlit("coupling");
        reveal_strlit("domain");
        reveal_strlit("preference");
        reveal_strlit("bug_pattern");
        reveal_strlit("tech_debt");
        reveal_strlit("ops");
        reveal_strlit("api");
        reveal_strlit("performance");
        reveal_strlit("roadmap");
        reveal_strlit("context");
        reveal_strlit("lesson");
        crate::seqs::lemma_first_where(builtin_names(), crate::graph::is_id(s@));
    }
    let ghost names = builtin_names();
    let ghost p = crate::graph::is_id(s@);
    let words: [&str; 15] = [
        "architecture",
        "pattern",
        "decision",
        "convention",
        "coupling",
        "domain",
        "preference",
        "bug_pattern",
        "tech_debt",
        "ops",
        "api",
        "performance",
        "roadmap",
        "context",
        "lesson",
    ];
    let mut i: usize = 0;
    while i < 15
        invariant
            i <= 15,
            names == builtin_names(),
            p == crate::graph::is_id(s@),
            forall|j: int| 0 <= j < 15 ==> (#[trigger] words@[j])@ == names[j],
            forall|j: int| 0 <= j < i ==> !p(#[trigger] names[j]),
        decreases 15 - i,
    {
        if crate::text::str_eq(words[i], s) {
            proof {
                crate::seqs::lemma_first_where_is(names, p, i as int);
            }
            return match i {
                0 => KnowledgeType::Architecture,
                1 => KnowledgeType::Pattern,
                2 => KnowledgeType::Decision,
                3 => KnowledgeType::Convention,
                4 => KnowledgeType::Coupling,
                5 => KnowledgeType::Domain,
                6 => KnowledgeType::Preference,
                7 => KnowledgeType::BugPattern,
                8 => KnowledgeType::TechDebt,
                9 => KnowledgeType::Ops,
                10 => KnowledgeType::Api,
                11 => KnowledgeType::Performance,
                12 => KnowledgeType::Roadmap,
                13 => KnowledgeType::Context,
                _ => KnowledgeType::Lesson,
            };
        }
        i = i + 1;
    }
    proof {
        crate::seqs::lemma_first_where_is(names, p, -1);
    }
    KnowledgeType::Custom(String::from_str(s))
}

/// Naming a parsed category gives the name back, for every name.
pub proof fn law_parse_then_name(s: Seq<char>)
    ensures
        kt_name(kt_parse(s)) == s,
{
    crate::seqs::lemma_first_where(builtin_names(), crate::graph::is_id(s));
}

/// Parsing a category's name gives the category back, except for a custom
/// category whose name is that of a built-in one.
pub proof fn law_name_then_parse(t: &KnowledgeType)
    requires
        !(kt_view(t).0 == 15 && builtin_names().contains(kt_view(t).1)),
    ensures
        kt_parse(kt_name(kt_view(t))) == kt_view(t),
{
    let v = kt_view(t);
    let names = builtin_names();
    let p = crate::graph::is_id(kt_name(v));
    crate::seqs::lemma_first_where(names, p);
    reveal_strlit("architecture");
    reveal_strlit("pattern");
    reveal_strlit("decision");
    reveal_strlit("convention");
    reveal_strlit("coupling");
    reveal_strlit("domain");
    reveal_strlit("preference");
    reveal_strlit("bug_pattern");
    reveal_strlit("tech_debt");
    reveal_strlit("ops");
    reveal_strlit("api");
    reveal_strlit("performance");
    reveal_strlit("roadmap");
    reveal_strlit("context");
    reveal_strlit("lesson");
    if 0 <= v.0 < 15 {
        assert forall|j: int| 0 <= j < 15 && j != v.0 implies #[trigger] names[j] != names[v.0] by {
            assert(names[j].len() != names[v.0].len() || names[j][0] != names[v.0][0] || names[j][1]
                != names[v.0][1] || names[j][2] != names[v.0][2] || names[j][3] != names[v.0][3]);
        }
        crate::seqs::lemma_first_where_is(names, p, v.0);
    } else {
        assert forall|j: int| 0 <= j < 15 implies !p(#[trigger] names[j]) by {
            assert(names.contains(names[j]));
        }
        crate::seqs::lemma_first_where_is(names, p, -1);
    }
}

} // verus!
