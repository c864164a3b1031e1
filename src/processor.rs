use vstd::prelude::*;
use crate::pattern::{
    capture_names,
    capture_names_of,
    captures,
    compile,
    compiles,
    first_match_of,
    is_substring,
    Pattern,
};

verus! {

/// The names among a list of capture groups, in group order.
pub open spec fn named_groups(groups: Seq<Option<Seq<char>>>) -> Seq<Seq<char>>
    decreases groups.len(),
{
    if groups.len() == 0 {
        Seq::empty()
    } else {
        let prev = named_groups(groups.drop_last());
        match groups.last() {
            Some(n) => prev.push(n),
            None => prev,
        }
    }
}

/// The (name, text) pairs of the named groups that took part in a match, in
/// group order. `names` gives each group's name, `groups` each group's text.
pub open spec fn fields(names: Seq<Option<Seq<char>>>, groups: Seq<Option<Seq<char>>>) -> Seq<
    (Seq<char>, Seq<char>),
>
    decreases names.len(),
{
    if names.len() == 0 {
        Seq::empty()
    } else {
        let i = names.len() - 1;
        let prev = fields(names.drop_last(), groups);
        if names[i] is Some && i < groups.len() && groups[i] is Some {
            prev.push((names[i]->0, groups[i]->0))
        } else {
            prev
        }
    }
}

/// What a processor holds: the source of its compiled pattern, the names
/// of its capture groups and its destination tag.
pub struct ProcessorView {
    pub pattern: Option<Seq<char>>,
    pub names: Seq<Seq<char>>,
    pub dst: Option<Seq<char>>,
}

/// What applying a processor to a line yields.
pub open spec fn applied(p: ProcessorView, line: Seq<char>) -> Option<Seq<(Seq<char>, Seq<char>)>> {
    match p.pattern {
        None => None,
        Some(pat) => if line.len() == 0 {
            None
        } else {
            match first_match_of(pat, line) {
                None => None,
                Some(g) => Some(fields(capture_names_of(pat), g)),
            }
        },
    }
}

/// The compiled form of a rule: a pattern with named groups and the tag
/// under which what it extracts is republished.
pub struct Processor {
    pub regex: Option<Pattern>,
    pub dst: Option<String>,
    pub names: Vec<String>,
}

impl View for Processor {
    type V = ProcessorView;

    open spec fn view(&self) -> ProcessorView {
        ProcessorView {
            pattern: match self.regex {
                Some(p) => Some(p@),
                None => None,
            },
            names: self.names.deep_view(),
            dst: self.dst.deep_view(),
        }
    }
}

proof fn lemma_named_groups_contains(groups: Seq<Option<Seq<char>>>, i: int)
    requires
        0 <= i < groups.len(),
        groups[i] is Some,
    ensures
        named_groups(groups).contains(groups[i]->0),
    decreases groups.len(),
{
    let prev = named_groups(groups.drop_last());
    if i == groups.len() - 1 {
        assert(named_groups(groups).last() == groups[i]->0);
    } else {
        lemma_named_groups_contains(groups.drop_last(), i);
        let k = choose|k: int| 0 <= k < prev.len() && prev[k] == groups[i]->0;
        assert(named_groups(groups)[k] == groups[i]->0);
    }
}

proof fn lemma_fields_origin(names: Seq<Option<Seq<char>>>, groups: Seq<Option<Seq<char>>>, j: int)
    requires
        0 <= j < fields(names, groups).len(),
    ensures
        exists|i: int|
            0 <= i < names.len() && i < groups.len() && names[i] == Some(
                #[trigger] fields(names, groups)[j].0,
            ) && groups[i] == Some(fields(names, groups)[j].1),
    decreases names.len(),
{
    let i = names.len() - 1;
    let prev = fields(names.drop_last(), groups);
    if j < prev.len() {
        lemma_fields_origin(names.drop_last(), groups, j);
        let k = choose|k: int|
            0 <= k < names.drop_last().len() && k < groups.len() && names.drop_last()[k] == Some(
                #[trigger] prev[j].0,
            ) && groups[k] == Some(prev[j].1);
        assert(names[k] == names.drop_last()[k]);
    } else {
        assert(names[i] == Some(fields(names, groups)[j].0));
    }
}

/// Pairs each group that took part in a match with its name, keeping the
/// named ones: `names` as `capture_names` gives them, `groups` as
/// `captures` gives them.
pub fn extract_fields(names: &Vec<Option<String>>, groups: &Vec<Option<String>>) -> (r: Vec<
    (String, String),
>)
    ensures
        r.deep_view() == fields(names.deep_view(), groups.deep_view()),
{
    let mut out: Vec<(String, String)> = Vec::new();
    let mut i: usize = 0;
    while i < names.len()
        invariant
            i <= names.len(),
            out.deep_view() == fields(names.deep_view().take(i as int), groups.deep_view()),
        decreases names.len() - i,
    {
        let ghost before = out.deep_view();
        let ghost nv = names.deep_view();
        assert(nv.take(i + 1).drop_last() =~= nv.take(i as int));
        match &names[i] {
            Some(n) => {
                if i < groups.len() {
                    match &groups[i] {
                        Some(g) => {
                            out.push((n.clone(), g.clone()));
                            assert(out.deep_view() =~= before.push((n@, g@)));
                        },
                        None => {},
                    }
                }
            },
            None => {},
        }
        i += 1;
    }
    assert(names.deep_view().take(names.len() as int) =~= names.deep_view());
    out
}

impl Processor {
    /// A processor with no pattern, no destination and no names.
    pub fn new() -> (r: Processor)
        ensures
            r@.pattern is None,
            r@.dst is None,
            r@.names.len() == 0,
    {
        let r = Processor { regex: None, dst: None, names: Vec::new() };
        assert(r@.names =~= Seq::<Seq<char>>::empty());
        r
    }

    /// Compiles `regex_str` and appends the names of its capture groups.
    /// Keeps the compiled pattern, and returns true, when it compiled and
    /// the processor then has at least one name.
    pub fn set_regex(&mut self, regex_str: String) -> (r: bool)
        ensures
            final(self)@.names == (if compiles(regex_str@) {
                old(self)@.names + named_groups(capture_names_of(regex_str@))
            } else {
                old(self)@.names
            }),
            r == (compiles(regex_str@) && final(self)@.names.len() > 0),
            final(self)@.pattern == (if r {
                Some(regex_str@)
            } else {
                old(self)@.pattern
            }),
            final(self)@.dst == old(self)@.dst,
    {
        let ghost text = regex_str@;
        match compile(regex_str) {
            Ok(p) => {
                let groups = capture_names(&p);
                let mut i: usize = 0;
                while i < groups.len()
                    invariant
                        i <= groups.len(),
                        groups.deep_view() == capture_names_of(text),
                        p@ == text,
                        self@.names == old(self)@.names + named_groups(
                            groups.deep_view().take(i as int),
                        ),
                        self@.pattern == old(self)@.pattern,
                        self@.dst == old(self)@.dst,
                    decreases groups.len() - i,
                {
                    let ghost before = self@.names;
                    let ghost gv = groups.deep_view();
                    assert(gv.take(i + 1).drop_last() =~= gv.take(i as int));
                    match &groups[i] {
                        Some(n) => {
                            self.names.push(n.clone());
                            assert(self@.names =~= before.push(n@));
                            assert(self@.names =~= old(self)@.names + named_groups(
                                gv.take(i + 1),
                            ));
                        },
                        None => {},
                    }
                    i += 1;
                }
                assert(groups.deep_view().take(groups.len() as int) =~= groups.deep_view());
                if self.names.len() > 0 {
                    self.regex = Some(p);
                    return true;
                }
                false
            },
            Err(_) => false,
        }
    }

    /// Records the tag under which extracted fields are republished.
    pub fn set_destination(&mut self, dst: String)
        ensures
            final(self)@ == (ProcessorView { dst: Some(dst@), ..old(self)@ }),
    {
        self.dst = Some(dst);
    }

    /// Runs the pattern once on `line`. Nothing comes of an empty line, of a
    /// processor without a pattern, or of a line the pattern does not match.
    /// Otherwise the result pairs each named group that took part in the
    /// first match with the text it captured.
    pub fn apply(&self, line: String) -> (r: Option<Vec<(String, String)>>)
        ensures
            r.deep_view() == applied(self@, line@),
            r matches Some(f) ==> forall|j: int|
                0 <= j < f@.len() ==> named_groups(
                    capture_names_of(self@.pattern->0),
                ).contains(#[trigger] f@[j].0@) && is_substring(f@[j].1@, line@),
    {
        match &self.regex {
            None => None,
            Some(p) => {
                if line.as_str().is_empty() {
                    return None;
                }
                match captures(p, line.as_str()) {
                    None => None,
                    Some(groups) => {
                        let names = capture_names(p);
                        let f = extract_fields(&names, &groups);
                        proof {
                            let nv = names.deep_view();
                            let gv = groups.deep_view();
                            assert forall|j: int| 0 <= j < f@.len() implies named_groups(
                                nv,
                            ).contains(#[trigger] f@[j].0@) && is_substring(
                                f@[j].1@,
                                line@,
                            ) by {
                                assert(f.deep_view()[j] == fields(nv, gv)[j]);
                                lemma_fields_origin(nv, gv, j);
                                let i = choose|i: int|
                                    0 <= i < nv.len() && i < gv.len() && nv[i] == Some(
                                        #[trigger] fields(nv, gv)[j].0,
                                    ) && gv[i] == Some(fields(nv, gv)[j].1);
                                lemma_named_groups_contains(nv, i);
                                assert(groups@[i] is Some);
                            }
                        }
                        Some(f)
                    },
                }
            },
        }
    }
}

} // verus!
