use vstd::prelude::*;
use crate::json::{encode_object, encode_string, json_object_of, json_string_of};
use crate::pattern::{capture_names_of, compiles};
use crate::processor::{applied, named_groups, Processor, ProcessorView};
use crate::rules::{PullRule, RulesConfig};

verus! {

/// The processor that a rule yields, where the rule is kept: it has a
/// pattern that compiles and holds at least one named group.
pub open spec fn admitted(rule: PullRule) -> Option<ProcessorView> {
    match rule.regex {
        None => None,
        Some(p) => if compiles(p@) && named_groups(capture_names_of(p@)).len() > 0 {
            Some(
                ProcessorView {
                    pattern: Some(p@),
                    names: named_groups(capture_names_of(p@)),
                    dst: rule.dst.deep_view(),
                },
            )
        } else {
            None
        },
    }
}

/// A store after each kept rule with a non-empty source tag has been
/// installed in turn, a later rule replacing an earlier one for the same tag.
pub open spec fn installed(
    store: Map<Seq<char>, ProcessorView>,
    rules: Seq<PullRule>,
) -> Map<Seq<char>, ProcessorView>
    decreases rules.len(),
{
    if rules.len() == 0 {
        store
    } else {
        let m = installed(store, rules.drop_last());
        let r = rules.last();
        if r.src@.len() > 0 && admitted(r) is Some {
            m.insert(r.src@, admitted(r)->0)
        } else {
            m
        }
    }
}

/// The non-empty source tags that the rules name.
pub open spec fn listed(rules: Seq<PullRule>) -> Set<Seq<char>> {
    Set::new(
        |k: Seq<char>| k.len() > 0 && exists|i: int| 0 <= i < rules.len() && #[trigger] rules[i].src@ == k,
    )
}

/// A store after a reload: the rules are installed, then every tag that
/// the rules do not name is removed.
pub open spec fn reloaded(
    store: Map<Seq<char>, ProcessorView>,
    rules: Seq<PullRule>,
) -> Map<Seq<char>, ProcessorView> {
    installed(store, rules).restrict(listed(rules))
}

/// The tags held in a list of strings.
pub open spec fn key_set(keys: Seq<String>) -> Set<Seq<char>> {
    Set::new(|k: Seq<char>| exists|i: int| 0 <= i < keys.len() && #[trigger] keys[i]@ == k)
}

/// Every processor in the store has a pattern with at least one name.
pub open spec fn well_formed(store: Map<Seq<char>, ProcessorView>) -> bool {
    forall|k: Seq<char>|
        store.contains_key(k) ==> (#[trigger] store[k]).pattern is Some && store[k].names.len() > 0
}

/// The message that the transform stage sends for `[src, id, payload]`:
/// the JSON text of the destination tag, the id, and the JSON object of the
/// extracted fields. Nothing is sent without a processor for `src`, without
/// a match, without a destination, or where an encoding fails.
pub open spec fn transformed(
    store: Map<Seq<char>, ProcessorView>,
    src: Seq<char>,
    id: Seq<u8>,
    payload: Seq<char>,
) -> Option<Seq<Seq<u8>>> {
    if !store.contains_key(src) {
        None
    } else {
        let p = store[src];
        match applied(p, payload) {
            None => None,
            Some(f) => match p.dst {
                None => None,
                Some(d) => match (json_string_of(d), json_object_of(f)) {
                    (Some(dj), Some(fj)) => Some(seq![dj, id, fj]),
                    _ => None,
                },
            },
        }
    }
}

spec fn find(s: Seq<(String, Processor)>, k: Seq<char>) -> Option<ProcessorView>
    decreases s.len(),
{
    if s.len() == 0 {
        None
    } else if s.last().0@ == k {
        Some(s.last().1@)
    } else {
        find(s.drop_last(), k)
    }
}

spec fn kept_by(keys: Set<Seq<char>>) -> spec_fn((String, Processor)) -> bool {
    |e: (String, Processor)| keys.contains(e.0@)
}

proof fn lemma_find_push(s: Seq<(String, Processor)>, e: (String, Processor), k: Seq<char>)
    ensures
        find(s.push(e), k) == (if e.0@ == k {
            Some(e.1@)
        } else {
            find(s, k)
        }),
{
    assert(s.push(e).drop_last() =~= s);
}

proof fn lemma_find_last(s: Seq<(String, Processor)>, i: int, k: Seq<char>)
    requires
        0 <= i < s.len(),
        s[i].0@ == k,
        forall|m: int| i < m < s.len() ==> (#[trigger] s[m]).0@ != k,
    ensures
        find(s, k) == Some(s[i].1@),
    decreases s.len(),
{
    if i < s.len() - 1 {
        lemma_find_last(s.drop_last(), i, k);
    }
}

proof fn lemma_find_none(s: Seq<(String, Processor)>, k: Seq<char>)
    requires
        forall|m: int| 0 <= m < s.len() ==> (#[trigger] s[m]).0@ != k,
    ensures
        find(s, k) is None,
    decreases s.len(),
{
    if s.len() > 0 {
        lemma_find_none(s.drop_last(), k);
    }
}

proof fn lemma_find_update(s: Seq<(String, Processor)>, i: int, e: (String, Processor), k: Seq<char>)
    requires
        0 <= i < s.len(),
        s[i].0@ == e.0@,
        forall|m: int| i < m < s.len() ==> (#[trigger] s[m]).0@ != e.0@,
    ensures
        find(s.update(i, e), k) == (if e.0@ == k {
            Some(e.1@)
        } else {
            find(s, k)
        }),
    decreases s.len(),
{
    let u = s.update(i, e);
    if i == s.len() - 1 {
        assert(u.drop_last() =~= s.drop_last());
    } else {
        assert(u.drop_last() =~= s.drop_last().update(i, e));
        lemma_find_update(s.drop_last(), i, e, k);
    }
}

proof fn lemma_find_filter(s: Seq<(String, Processor)>, keys: Set<Seq<char>>, k: Seq<char>)
    ensures
        find(s.filter(kept_by(keys)), k) == (if keys.contains(k) {
            find(s, k)
        } else {
            None
        }),
    decreases s.len(),
{
    reveal(Seq::filter);
    if s.len() > 0 {
        let sub = s.drop_last().filter(kept_by(keys));
        lemma_find_filter(s.drop_last(), keys, k);
        if kept_by(keys)(s.last()) {
            assert(sub.push(s.last()).drop_last() =~= sub);
        }
    }
}

proof fn lemma_installed_lacks(
    store: Map<Seq<char>, ProcessorView>,
    rules: Seq<PullRule>,
    src: Seq<char>,
)
    requires
        !store.contains_key(src),
        forall|i: int| 0 <= i < rules.len() && (#[trigger] rules[i]).src@ == src ==> admitted(
            rules[i],
        ) is None,
    ensures
        !installed(store, rules).contains_key(src),
    decreases rules.len(),
{
    if rules.len() > 0 {
        let rest = rules.drop_last();
        assert forall|i: int| 0 <= i < rest.len() && (#[trigger] rest[i]).src@ == src implies admitted(
            rest[i],
        ) is None by {
            assert(rest[i] == rules[i]);
        }
        lemma_installed_lacks(store, rest, src);
        assert(rules.last() == rules[rules.len() - 1]);
    }
}

/// A rule whose pattern has no named group never enters the store: where
/// the store held nothing for a tag and every rule for that tag has such a
/// pattern, the store holds nothing for it after the reload either.
pub proof fn lemma_unnamed_rule_absent(
    store: Map<Seq<char>, ProcessorView>,
    rules: Seq<PullRule>,
    src: Seq<char>,
)
    requires
        !store.contains_key(src),
        forall|i: int| 0 <= i < rules.len() && (#[trigger] rules[i]).src@ == src ==> (rules[i].regex matches Some(
            p,
        ) && named_groups(capture_names_of(p@)).len() == 0),
    ensures
        !reloaded(store, rules).contains_key(src),
{
    lemma_installed_lacks(store, rules, src);
}

proof fn lemma_installed_well_formed(store: Map<Seq<char>, ProcessorView>, rules: Seq<PullRule>)
    requires
        well_formed(store),
    ensures
        well_formed(installed(store, rules)),
    decreases rules.len(),
{
    if rules.len() > 0 {
        lemma_installed_well_formed(store, rules.drop_last());
    }
}

/// A reload keeps every processor in the store usable: each one has a
/// pattern with at least one named group.
pub proof fn lemma_reload_well_formed(store: Map<Seq<char>, ProcessorView>, rules: Seq<PullRule>)
    requires
        well_formed(store),
    ensures
        well_formed(reloaded(store, rules)),
{
    lemma_installed_well_formed(store, rules);
}

/// The table from source tag to processor that the transform stage reads.
pub struct RuleStore {
    entries: Vec<(String, Processor)>,
}

impl View for RuleStore {
    type V = Map<Seq<char>, ProcessorView>;

    closed spec fn view(&self) -> Map<Seq<char>, ProcessorView> {
        Map::new(
            |k: Seq<char>| find(self.entries@, k) is Some,
            |k: Seq<char>| find(self.entries@, k)->0,
        )
    }
}

/// Whether `key` is among `keys`.
fn listed_in(keys: &Vec<String>, key: &String) -> (r: bool)
    ensures
        r == key_set(keys@).contains(key@),
{
    let mut i: usize = 0;
    while i < keys.len()
        invariant
            i <= keys.len(),
            forall|m: int| 0 <= m < i ==> (#[trigger] keys@[m])@ != key@,
        decreases keys.len() - i,
    {
        if keys[i] == *key {
            assert(keys@[i as int]@ == key@);
            return true;
        }
        i += 1;
    }
    false
}

impl RuleStore {
    /// An empty store.
    pub fn new() -> (r: RuleStore)
        ensures
            r@ == Map::<Seq<char>, ProcessorView>::empty(),
            well_formed(r@),
    {
        let r = RuleStore { entries: Vec::new() };
        assert(r@ =~= Map::<Seq<char>, ProcessorView>::empty());
        r
    }

    fn last_index_of(&self, key: &String) -> (r: Option<usize>)
        ensures
            match r {
                Some(i) => i < self.entries@.len() && self.entries@[i as int].0@ == key@ && forall|
                    m: int,
                | i < m < self.entries@.len() ==> (#[trigger] self.entries@[m]).0@ != key@,
                None => forall|m: int|
                    0 <= m < self.entries@.len() ==> (#[trigger] self.entries@[m]).0@ != key@,
            },
    {
        let mut j: usize = self.entries.len();
        while j > 0
            invariant
                j <= self.entries@.len(),
                forall|m: int| j <= m < self.entries@.len() ==> (#[trigger] self.entries@[m]).0@ != key@,
            decreases j,
        {
            if self.entries[j - 1].0 == *key {
                return Some(j - 1);
            }
            j -= 1;
        }
        None
    }

    /// The processor held for `key`, if any.
    pub fn get(&self, key: &String) -> (r: Option<&Processor>)
        ensures
            match r {
                Some(p) => self@.contains_key(key@) && p@ == self@[key@],
                None => !self@.contains_key(key@),
            },
    {
        match self.last_index_of(key) {
            Some(i) => {
                proof {
                    lemma_find_last(self.entries@, i as int, key@);
                }
                Some(&self.entries[i].1)
            },
            None => {
                proof {
                    lemma_find_none(self.entries@, key@);
                }
                None
            },
        }
    }

    /// Holds `p` for `key`, replacing what was held for it.
    fn insert(&mut self, key: String, p: Processor)
        ensures
            final(self)@ == old(self)@.insert(key@, p@),
    {
        let ghost e = (key, p);
        let ghost before = self.entries@;
        match self.last_index_of(&key) {
            Some(i) => {
                self.entries[i] = (key, p);
                proof {
                    assert forall|k: Seq<char>| #[trigger] find(self.entries@, k) == (if e.0@ == k {
                        Some(e.1@)
                    } else {
                        find(before, k)
                    }) by {
                        lemma_find_update(before, i as int, e, k);
                    }
                }
            },
            None => {
                self.entries.push((key, p));
                proof {
                    assert forall|k: Seq<char>| #[trigger] find(self.entries@, k) == (if e.0@ == k {
                        Some(e.1@)
                    } else {
                        find(before, k)
                    }) by {
                        lemma_find_push(before, e, k);
                    }
                }
            },
        }
        assert(self@ =~= old(self)@.insert(key@, p@));
    }

    /// Removes every tag that `keep` does not hold.
    fn retain_listed(&mut self, keep: &Vec<String>)
        ensures
            final(self)@ == old(self)@.restrict(key_set(keep@)),
    {
        let ghost orig = self.entries@;
        let ghost f = kept_by(key_set(keep@));
        let n: usize = self.entries.len();
        let mut i: usize = 0;
        let mut j: usize = 0;
        while j < self.entries.len()
            invariant
                i <= orig.len(),
                orig.len() == n,
                self.entries@ == orig.take(i as int).filter(f) + orig.skip(i as int),
                j == orig.take(i as int).filter(f).len(),
                self.entries@.len() == j + orig.len() - i,
                f == kept_by(key_set(keep@)),
            decreases orig.len() - i,
        {
            let ghost a = orig.take(i as int).filter(f);
            proof {
                reveal(Seq::filter);
            }
            assert(orig.take(i + 1).drop_last() =~= orig.take(i as int));
            assert(self.entries@[j as int] == orig[i as int]);
            if listed_in(keep, &self.entries[j].0) {
                assert(orig.take(i + 1).filter(f) == a.push(orig[i as int]));
                assert(self.entries@ =~= a.push(orig[i as int]) + orig.skip(i + 1));
                j += 1;
            } else {
                self.entries.remove(j);
                assert(orig.take(i + 1).filter(f) == a);
                assert(self.entries@ =~= a + orig.skip(i + 1));
            }
            i += 1;
        }
        assert(orig.take(orig.len() as int) =~= orig);
        assert(self.entries@ =~= orig.filter(f));
        proof {
            assert forall|k: Seq<char>| #[trigger] find(self.entries@, k) == (if key_set(
                keep@,
            ).contains(k) {
                find(orig, k)
            } else {
                None
            }) by {
                lemma_find_filter(orig, key_set(keep@), k);
            }
        }
        assert(self@ =~= old(self)@.restrict(key_set(keep@)));
    }

    /// Rebuilds the store from the contents of a rules file. Each rule with
    /// a non-empty source tag and a pattern that compiles with at least one
    /// named group is installed under its tag, later rules replacing earlier
    /// ones; then every tag that the rules do not name is removed.
    pub fn load(&mut self, config: RulesConfig)
        ensures
            final(self)@ == reloaded(old(self)@, config.pull_rules@),
            well_formed(old(self)@) ==> well_formed(final(self)@),
    {
        let rules = config.pull_rules;
        let mut new_srcs: Vec<String> = Vec::new();
        let mut i: usize = 0;
        while i < rules.len()
            invariant
                i <= rules@.len(),
                rules@ == config.pull_rules@,
                self@ == installed(old(self)@, rules@.take(i as int)),
                key_set(new_srcs@) == listed(rules@.take(i as int)),
            decreases rules.len() - i,
        {
            let ghost pre = rules@.take(i as int);
            let ghost next = rules@.take(i + 1);
            assert(next.drop_last() =~= pre);
            assert(next.last() == rules@[i as int]);
            let rule = &rules[i];
            if rule.src.as_str().is_empty() {
                assert forall|k: Seq<char>| listed(next).contains(k) == listed(pre).contains(k) by {
                    if listed(next).contains(k) {
                        let m = choose|m: int| 0 <= m < next.len() && #[trigger] next[m].src@ == k;
                        assert(pre[m] == next[m]);
                    }
                    if listed(pre).contains(k) {
                        let m = choose|m: int| 0 <= m < pre.len() && #[trigger] pre[m].src@ == k;
                        assert(pre[m] == next[m]);
                    }
                }
                assert(listed(next) =~= listed(pre));
            } else {
                let ghost before = new_srcs@;
                new_srcs.push(rule.src.clone());
                assert forall|k: Seq<char>|
                    key_set(new_srcs@).contains(k) == key_set(before).insert(rule.src@).contains(k) by {
                    if key_set(before).contains(k) {
                        let m = choose|m: int| 0 <= m < before.len() && #[trigger] before[m]@ == k;
                        assert(new_srcs@[m] == before[m]);
                    }
                    if key_set(new_srcs@).contains(k) && k != rule.src@ {
                        let m = choose|m: int| 0 <= m < new_srcs@.len() && #[trigger] new_srcs@[m]@ == k;
                        assert(new_srcs@[m] == before[m]);
                    }
                    if k == rule.src@ {
                        assert(new_srcs@[before.len() as int]@ == k);
                    }
                }
                assert(key_set(new_srcs@) =~= key_set(before).insert(rule.src@));
                assert forall|k: Seq<char>|
                    listed(next).contains(k) == listed(pre).insert(rule.src@).contains(k) by {
                    if listed(next).contains(k) && k != rule.src@ {
                        let m = choose|m: int| 0 <= m < next.len() && #[trigger] next[m].src@ == k;
                        assert(pre[m] == next[m]);
                    }
                    if listed(pre).contains(k) {
                        let m = choose|m: int| 0 <= m < pre.len() && #[trigger] pre[m].src@ == k;
                        assert(pre[m] == next[m]);
                    }
                    if k == rule.src@ {
                        assert(next[i as int].src@ == k);
                    }
                }
                assert(listed(next) =~= listed(pre).insert(rule.src@));
                let mut processor = Processor::new();
                let mut add_proc = false;
                match &rule.regex {
                    Some(p) => {
                        add_proc = processor.set_regex(p.clone());
                    },
                    None => {},
                }
                match &rule.dst {
                    Some(d) => {
                        processor.set_destination(d.clone());
                    },
                    None => {},
                }
                if add_proc {
                    proof {
                        let p = rule.regex->0;
                        assert(Seq::<Seq<char>>::empty() + named_groups(capture_names_of(p@))
                            =~= named_groups(capture_names_of(p@)));
                        assert(processor@ == admitted(*rule)->0);
                    }
                    self.insert(rule.src.clone(), processor);
                } else {
                    proof {
                        if rule.regex is Some {
                            let p = rule.regex->0;
                            if compiles(p@) {
                                assert(Seq::<Seq<char>>::empty() + named_groups(capture_names_of(p@))
                                    =~= named_groups(capture_names_of(p@)));
                            }
                        }
                    }
                }
            }
            i += 1;
        }
        assert(rules@.take(rules@.len() as int) =~= rules@);
        self.retain_listed(&new_srcs);
        proof {
            if well_formed(old(self)@) {
                lemma_reload_well_formed(old(self)@, config.pull_rules@);
            }
        }
    }

    /// The transform stage's work on one message `[src, id, payload]`: the
    /// message to push on, if the processor held for `src` matches `payload`
    /// and has a destination.
    pub fn transform(&self, src: &String, id: &Vec<u8>, payload: String) -> (r: Option<Vec<Vec<u8>>>)
        ensures
            r.deep_view() == transformed(self@, src@, id@, payload@),
            self@.contains_key(src@) && self@[src@].dst is None ==> r is None,
    {
        match self.get(src) {
            None => None,
            Some(p) => match p.apply(payload) {
                None => None,
                Some(f) => match &p.dst {
                    None => None,
                    Some(d) => match (encode_string(d), encode_object(&f)) {
                        (Ok(dj), Ok(fj)) => {
                            let mut out: Vec<Vec<u8>> = Vec::new();
                            out.push(dj);
                            let idc = id.clone();
                            assert(idc@ =~= id@);
                            assert(dj.deep_view() =~= dj@);
                            assert(idc.deep_view() =~= id@);
                            assert(fj.deep_view() =~= fj@);
                            let ghost parts = (dj.deep_view(), idc.deep_view(), fj.deep_view());
                            out.push(idc);
                            out.push(fj);
                            assert(out.deep_view() =~= seq![parts.0, parts.1, parts.2]);
                            assert(out.deep_view() =~= seq![
                                json_string_of(d@)->0,
                                id@,
                                json_object_of(f.deep_view())->0,
                            ]);
                            Some(out)
                        },
                        _ => None,
                    },
                },
            },
        }
    }
}

} // verus!
