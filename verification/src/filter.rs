//! Filtering of log records by the namespace they come from.
//!
//! A namespace is a path of segments joined by `::`, such as `app::net::tcp`.
//! A [`TargetFilter`] holds a blacklist and a whitelist of namespaces and
//! decides for a namespace by its nearest listed ancestor, itself included.

use vstd::prelude::*;
use hashbrown::HashSet;

verus! {

/// What a filter says about a record.
#[derive(Clone, Copy, Debug, PartialEq, Eq, Structural)]
pub enum FilterResponse {
    /// Let the record through without asking further filters.
    Accept,
    /// No objection: the record proceeds.
    Neutral,
    /// Drop the record.
    Reject,
}

/// Whether the separator `::` stands at index `k` of `ns`.
pub open spec fn separator_at(ns: Seq<char>, k: int) -> bool {
    0 <= k && k + 1 < ns.len() && ns[k] == ':' && ns[k + 1] == ':'
}

/// Whether the last separator of `ns` stands at index `k`.
pub open spec fn last_separator_at(ns: Seq<char>, k: int) -> bool {
    &&& separator_at(ns, k)
    &&& forall|j: int| k < j ==> !separator_at(ns, j)
}

/// The namespace one level up: `ns` up to its last separator. A namespace
/// without a separator is a root and has no parent.
pub open spec fn parent(ns: Seq<char>) -> Option<Seq<char>> {
    if exists|k: int| last_separator_at(ns, k) {
        Some(ns.take(choose|k: int| last_separator_at(ns, k)))
    } else {
        None
    }
}

/// The decision for `ns` under the two lists. A blacklisted namespace is
/// rejected, a whitelisted one passes, and one on neither list gets the
/// decision of its parent. A root on neither list passes exactly if the
/// whitelist is not in use.
pub open spec fn decide(
    black: Set<Seq<char>>,
    white: Set<Seq<char>>,
    ns: Seq<char>,
) -> FilterResponse
    decreases ns.len(),
{
    if black.contains(ns) {
        FilterResponse::Reject
    } else if white.contains(ns) {
        FilterResponse::Neutral
    } else {
        match parent(ns) {
            Some(up) => decide(black, white, up),
            None => if white == Set::<Seq<char>>::empty() {
                FilterResponse::Neutral
            } else {
                FilterResponse::Reject
            },
        }
    }
}

/// A namespace that splits at `k` has the first `k` characters as its parent.
pub proof fn lemma_parent_at(ns: Seq<char>, k: int)
    requires
        last_separator_at(ns, k),
    ensures
        parent(ns) == Some(ns.take(k)),
{
    let chosen = choose|j: int| last_separator_at(ns, j);
    assert(separator_at(ns, chosen));
    assert(separator_at(ns, k));
}

/// A namespace without a separator has no parent.
pub proof fn lemma_root(ns: Seq<char>)
    requires
        forall|k: int| !separator_at(ns, k),
    ensures
        parent(ns) is None,
{
}

/// The parent of `ns`, if it has one.
pub fn parent_of<'a>(ns: &'a str) -> (up: Option<&'a str>)
    ensures
        up is Some == parent(ns@) is Some,
        up matches Some(p) ==> parent(ns@) == Some(p@),
{
    let n = ns.unicode_len();
    let mut last: Option<usize> = None;
    let mut after_colon = false;
    let mut i: usize = 0;
    for c in it: ns.chars()
        invariant
            it.seq() == ns@,
            n == ns@.len(),
            i == it.index(),
            after_colon == (i > 0 && ns@[i - 1] == ':'),
            match last {
                Some(k) => separator_at(ns@, k as int) && k + 1 < i && forall|j: int|
                    k < j && j + 1 < i ==> !separator_at(ns@, j),
                None => forall|j: int| j + 1 < i ==> !separator_at(ns@, j),
            },
    {
        if c == ':' && after_colon {
            last = Some(i - 1);
        }
        after_colon = c == ':';
        i = i + 1;
    }
    match last {
        Some(k) => {
            proof {
                lemma_parent_at(ns@, k as int);
            }
            Some(ns.substring_char(0, k))
        },
        None => {
            proof {
                lemma_root(ns@);
            }
            None
        },
    }
}

/// A set of namespaces, kept in a `hashbrown::HashSet`.
#[verifier::external_body]
#[derive(Debug)]
pub struct NameSet {
    inner: HashSet<String>,
}

/// The namespaces that a set holds.
pub uninterp spec fn names(set: NameSet) -> Set<Seq<char>>;

impl NameSet {
    /// `HashSet::default` makes a set that holds nothing.
    #[verifier::external_body]
    pub(crate) fn new() -> (set: NameSet)
        ensures
            names(set) == Set::<Seq<char>>::empty(),
    {
        NameSet { inner: HashSet::default() }
    }

    /// `HashSet::insert` adds the name to what the set holds.
    #[verifier::external_body]
    pub(crate) fn insert(&mut self, name: String)
        ensures
            names(*final(self)) == names(*old(self)).insert(name@),
    {
        self.inner.insert(name);
    }

    /// `HashSet::contains` tells whether the set holds the name.
    #[verifier::external_body]
    pub(crate) fn contains(&self, name: &str) -> (found: bool)
        ensures
            found == names(*self).contains(name@),
    {
        self.inner.contains(name)
    }

    /// `HashSet::clone` makes a set that holds the same names.
    #[verifier::external_body]
    pub(crate) fn duplicate(&self) -> (copy: NameSet)
        ensures
            names(copy) == names(*self),
    {
        NameSet { inner: self.inner.clone() }
    }

    /// `HashSet::is_empty` tells whether the set holds nothing.
    #[verifier::external_body]
    pub(crate) fn is_empty(&self) -> (empty: bool)
        ensures
            empty == (names(*self) == Set::<Seq<char>>::empty()),
    {
        self.inner.is_empty()
    }
}

/// A filter on the namespace of a record.
#[derive(Debug)]
pub struct TargetFilter {
    black: NameSet,
    white: NameSet,
}

impl Clone for TargetFilter {
    fn clone(&self) -> (copy: Self)
        ensures
            copy.blacklist() == self.blacklist(),
            copy.whitelist() == self.whitelist(),
    {
        TargetFilter { black: self.black.duplicate(), white: self.white.duplicate() }
    }
}

impl TargetFilter {
    /// The namespaces that are rejected by name.
    pub closed spec fn blacklist(&self) -> Set<Seq<char>> {
        names(self.black)
    }

    /// The namespaces that are admitted by name.
    pub closed spec fn whitelist(&self) -> Set<Seq<char>> {
        names(self.white)
    }

    /// The filter with the two lists.
    pub(crate) fn new(black: NameSet, white: NameSet) -> (filter: Self)
        ensures
            filter.blacklist() == names(black),
            filter.whitelist() == names(white),
    {
        TargetFilter { black, white }
    }

    /// Decides for the namespace `target`.
    pub fn decide(&self, target: &str) -> (response: FilterResponse)
        ensures
            response == decide(self.blacklist(), self.whitelist(), target@),
    {
        let mut current: &str = target;
        loop
            invariant
                decide(self.blacklist(), self.whitelist(), current@) == decide(
                    self.blacklist(),
                    self.whitelist(),
                    target@,
                ),
            decreases current@.len(),
        {
            if self.black.contains(current) {
                return FilterResponse::Reject;
            }
            if self.white.contains(current) {
                return FilterResponse::Neutral;
            }
            match parent_of(current) {
                Some(up) => {
                    current = up;
                },
                None => {
                    return if self.white.is_empty() {
                        FilterResponse::Neutral
                    } else {
                        FilterResponse::Reject
                    };
                },
            }
        }
    }
}

/// Whether `cfg[i..j]` is an entry of the comma-separated list `cfg`: a
/// stretch without a comma that reaches from the start or a comma to the
/// next comma or the end.
pub open spec fn entry_at(cfg: Seq<char>, i: int, j: int) -> bool {
    &&& 0 <= i <= j <= cfg.len()
    &&& (i == 0 || cfg[i - 1] == ',')
    &&& (j == cfg.len() || cfg[j] == ',')
    &&& forall|k: int| i <= k < j ==> cfg[k] != ','
}

/// Whether the entry `cfg[i..j]` goes on the blacklist: it starts with `-`.
pub open spec fn entry_is_black(cfg: Seq<char>, i: int, j: int) -> bool {
    i < j && cfg[i] == '-'
}

/// The namespace that the entry `cfg[i..j]` names: the entry without its
/// leading `-` or `+`, if it has one.
pub open spec fn entry_name(cfg: Seq<char>, i: int, j: int) -> Seq<char> {
    if i < j && (cfg[i] == '-' || cfg[i] == '+') {
        cfg.subrange(i + 1, j)
    } else {
        cfg.subrange(i, j)
    }
}

/// Whether some entry of `cfg` puts `name` on the blacklist (`black`) or on
/// the whitelist (`!black`).
pub open spec fn listed(cfg: Seq<char>, black: bool, name: Seq<char>) -> bool {
    exists|i: int, j: int|
        #[trigger] entry_at(cfg, i, j) && entry_is_black(cfg, i, j) == black && name
            == entry_name(cfg, i, j)
}

/// The blacklist that the configuration text `cfg` describes.
pub open spec fn config_blacklist(cfg: Seq<char>) -> Set<Seq<char>> {
    Set::new(|name: Seq<char>| listed(cfg, true, name))
}

/// The whitelist that the configuration text `cfg` describes.
pub open spec fn config_whitelist(cfg: Seq<char>) -> Set<Seq<char>> {
    Set::new(|name: Seq<char>| listed(cfg, false, name))
}

/// As `listed`, of the entries that end before `end` alone.
spec fn listed_before(cfg: Seq<char>, end: int, black: bool, name: Seq<char>) -> bool {
    exists|i: int, j: int|
        #[trigger] entry_at(cfg, i, j) && j < end && entry_is_black(cfg, i, j) == black && name
            == entry_name(cfg, i, j)
}

/// Every entry ends at the end of the text or before it.
proof fn lemma_listed_all(cfg: Seq<char>, black: bool)
    ensures
        Set::new(|name: Seq<char>| listed_before(cfg, cfg.len() as int + 1, black, name))
            == Set::new(|name: Seq<char>| listed(cfg, black, name)),
{
    let bounded = Set::new(
        |name: Seq<char>| listed_before(cfg, cfg.len() as int + 1, black, name),
    );
    let all = Set::new(|name: Seq<char>| listed(cfg, black, name));
    assert forall|name: Seq<char>| all.contains(name) implies bounded.contains(name) by {
        let (i, j) = choose|i: int, j: int|
            #[trigger] entry_at(cfg, i, j) && entry_is_black(cfg, i, j) == black && name
                == entry_name(cfg, i, j);
        assert(entry_at(cfg, i, j) && j < cfg.len() + 1);
    }
    assert forall|name: Seq<char>| bounded.contains(name) implies all.contains(name) by {
        let (i, j) = choose|i: int, j: int|
            #[trigger] entry_at(cfg, i, j) && j < cfg.len() + 1 && entry_is_black(cfg, i, j)
                == black && name == entry_name(cfg, i, j);
        assert(entry_at(cfg, i, j));
    }
    assert(bounded =~= all);
}

/// An entry that ends at `j`, where the stretch from `start` to `j` holds no
/// comma and `start` follows a comma or is the start, begins at `start`.
proof fn lemma_entry_start(cfg: Seq<char>, start: int, i: int, j: int)
    requires
        entry_at(cfg, i, j),
        0 <= start <= j,
        start == 0 || cfg[start - 1] == ',',
        forall|k: int| start <= k < j ==> cfg[k] != ',',
    ensures
        i == start,
{
    if i < start {
        assert(cfg[start - 1] != ',');
    }
    if start < i {
        assert(cfg[i - 1] != ',');
    }
}

/// Closing the entry `cfg[start..end]` adds its name to one list and
/// nothing to the other.
proof fn lemma_close_entry(cfg: Seq<char>, start: int, end: int, black: bool)
    requires
        entry_at(cfg, start, end),
    ensures
        Set::new(|name: Seq<char>| listed_before(cfg, end + 1, black, name)) == if black
            == entry_is_black(cfg, start, end) {
            Set::new(|name: Seq<char>| listed_before(cfg, start, black, name)).insert(
                entry_name(cfg, start, end),
            )
        } else {
            Set::new(|name: Seq<char>| listed_before(cfg, start, black, name))
        },
{
    let before = Set::new(|name: Seq<char>| listed_before(cfg, start, black, name));
    let after = Set::new(|name: Seq<char>| listed_before(cfg, end + 1, black, name));
    let own = entry_name(cfg, start, end);
    let takes = black == entry_is_black(cfg, start, end);
    assert forall|name: Seq<char>| after.contains(name) implies (before.contains(name) || (takes
        && name == own)) by {
        let (i, j) = choose|i: int, j: int|
            #[trigger] entry_at(cfg, i, j) && j < end + 1 && entry_is_black(cfg, i, j) == black
                && name == entry_name(cfg, i, j);
        if j >= start {
            if j < end {
                assert(cfg[j] != ',');
            }
            lemma_entry_start(cfg, start, i, j);
        }
    }
    assert forall|name: Seq<char>| before.contains(name) implies after.contains(name) by {
        let (i, j) = choose|i: int, j: int|
            #[trigger] entry_at(cfg, i, j) && j < start && entry_is_black(cfg, i, j) == black
                && name == entry_name(cfg, i, j);
        assert(entry_at(cfg, i, j) && j < end + 1);
    }
    if takes {
        assert(entry_at(cfg, start, end) && end < end + 1);
        assert(after.contains(own));
        assert(after =~= before.insert(own));
    } else {
        assert(after =~= before);
    }
}

/// Reads a filter from configuration text: a comma-separated list in which
/// an entry that starts with `-` names a blacklisted namespace, and any
/// other entry, with or without a leading `+`, a whitelisted one.
pub fn parse_filter_config(cfg: String) -> (filter: TargetFilter)
    ensures
        filter.blacklist() == config_blacklist(cfg@),
        filter.whitelist() == config_whitelist(cfg@),
{
    let mut black = NameSet::new();
    let mut white = NameSet::new();
    let mut name = String::new();
    let mut fresh = true;
    let mut is_black = false;
    let ghost mut start: int = 0;
    let text = cfg.as_str();
    proof {
        assert(names(black) =~= Set::new(|n: Seq<char>| listed_before(cfg@, 0, true, n)));
        assert(names(white) =~= Set::new(|n: Seq<char>| listed_before(cfg@, 0, false, n)));
    }
    for c in it: text.chars()
        invariant
            it.seq() == cfg@,
            0 <= start <= it.index(),
            start == 0 || cfg@[start - 1] == ',',
            forall|k: int| start <= k < it.index() ==> cfg@[k] != ',',
            fresh == (start == it.index()),
            is_black == entry_is_black(cfg@, start, it.index() as int),
            name@ == entry_name(cfg@, start, it.index() as int),
            names(black) == Set::new(|n: Seq<char>| listed_before(cfg@, start, true, n)),
            names(white) == Set::new(|n: Seq<char>| listed_before(cfg@, start, false, n)),
    {
        let ghost at = it.index() as int;
        if c == ',' {
            proof {
                lemma_close_entry(cfg@, start, at, true);
                lemma_close_entry(cfg@, start, at, false);
                start = at + 1;
            }
            if is_black {
                black.insert(name);
            } else {
                white.insert(name);
            }
            name = String::new();
            fresh = true;
            is_black = false;
            assert(name@ =~= entry_name(cfg@, start, at + 1));
        } else if fresh && c == '-' {
            fresh = false;
            is_black = true;
            assert(name@ =~= entry_name(cfg@, start, at + 1));
        } else if fresh && c == '+' {
            fresh = false;
            assert(name@ =~= entry_name(cfg@, start, at + 1));
        } else {
            fresh = false;
            name.push(c);
            assert(name@ =~= entry_name(cfg@, start, at + 1));
        }
    }
    proof {
        lemma_close_entry(cfg@, start, cfg@.len() as int, true);
        lemma_close_entry(cfg@, start, cfg@.len() as int, false);
        lemma_listed_all(cfg@, true);
        lemma_listed_all(cfg@, false);
    }
    if is_black {
        black.insert(name);
    } else {
        white.insert(name);
    }
    TargetFilter::new(black, white)
}

/// Two configuration texts joined by a comma.
pub open spec fn joined(a: Seq<char>, b: Seq<char>) -> Seq<char> {
    a + seq![','] + b
}

/// A joined text lists a name exactly where one of its two parts does.
pub proof fn lemma_joined_lists(a: Seq<char>, b: Seq<char>, black: bool, name: Seq<char>)
    ensures
        listed(joined(a, b), black, name) <==> listed(a, black, name) || listed(b, black, name),
{
    let c = joined(a, b);
    let n = a.len() as int;
    assert(c.len() == n + 1 + b.len());
    assert(c[n] == ',');
    assert forall|k: int| 0 <= k < n implies c[k] == a[k] by {}
    assert forall|k: int| n < k < c.len() implies c[k] == b[k - n - 1] by {}
    if listed(c, black, name) {
        let (i, j) = choose|i: int, j: int|
            #[trigger] entry_at(c, i, j) && entry_is_black(c, i, j) == black && name == entry_name(
                c,
                i,
                j,
            );
        if j <= n {
            assert(entry_at(a, i, j)) by {
                if i > 0 {
                    assert(c[i - 1] == a[i - 1]);
                }
                assert forall|k: int| i <= k < j implies a[k] != ',' by {
                    assert(c[k] != ',');
                }
            }
            assert(c.subrange(i, j) =~= a.subrange(i, j));
            if i < j {
                assert(c[i] == a[i]);
                assert(c.subrange(i + 1, j) =~= a.subrange(i + 1, j));
            }
            assert(entry_is_black(a, i, j) == black && name == entry_name(a, i, j));
        } else {
            if i <= n {
                assert(c[n] != ',');
            }
            let (x, y) = (i - n - 1, j - n - 1);
            assert(entry_at(b, x, y)) by {
                if x > 0 {
                    assert(c[i - 1] == b[x - 1]);
                }
                if y < b.len() {
                    assert(c[j] == b[y]);
                }
                assert forall|k: int| x <= k < y implies b[k] != ',' by {
                    assert(c[k + n + 1] != ',');
                }
            }
            assert(c.subrange(i, j) =~= b.subrange(x, y));
            if i < j {
                assert(c[i] == b[x]);
                assert(c.subrange(i + 1, j) =~= b.subrange(x + 1, y));
            }
            assert(entry_is_black(b, x, y) == black && name == entry_name(b, x, y));
        }
    }
    if listed(a, black, name) {
        let (i, j) = choose|i: int, j: int|
            #[trigger] entry_at(a, i, j) && entry_is_black(a, i, j) == black && name == entry_name(
                a,
                i,
                j,
            );
        assert(entry_at(c, i, j)) by {
            if i > 0 {
                assert(c[i - 1] == a[i - 1]);
            }
            assert forall|k: int| i <= k < j implies c[k] != ',' by {
                assert(a[k] != ',');
            }
        }
        assert(c.subrange(i, j) =~= a.subrange(i, j));
        if i < j {
            assert(c[i] == a[i]);
            assert(c.subrange(i + 1, j) =~= a.subrange(i + 1, j));
        }
        assert(entry_is_black(c, i, j) == black && name == entry_name(c, i, j));
    }
    if listed(b, black, name) {
        let (x, y) = choose|x: int, y: int|
            #[trigger] entry_at(b, x, y) && entry_is_black(b, x, y) == black && name == entry_name(
                b,
                x,
                y,
            );
        let (i, j) = (x + n + 1, y + n + 1);
        assert(entry_at(c, i, j)) by {
            if x > 0 {
                assert(c[i - 1] == b[x - 1]);
            }
            if y < b.len() {
                assert(c[j] == b[y]);
            }
            assert forall|k: int| i <= k < j implies c[k] != ',' by {
                assert(b[k - n - 1] != ',');
            }
        }
        assert(c.subrange(i, j) =~= b.subrange(x, y));
        if i < j {
            assert(c[i] == b[x]);
            assert(c.subrange(i + 1, j) =~= b.subrange(x + 1, y));
        }
        assert(entry_is_black(c, i, j) == black && name == entry_name(c, i, j));
    }
}

/// The order of the entries of a configuration text does not matter, nor
/// does it matter how often an entry stands in it: two texts joined either
/// way around describe the same lists, and a text joined to itself
/// describes the lists of the text.
pub proof fn lemma_config_order(a: Seq<char>, b: Seq<char>)
    ensures
        config_blacklist(joined(a, b)) == config_blacklist(joined(b, a)),
        config_whitelist(joined(a, b)) == config_whitelist(joined(b, a)),
        config_blacklist(joined(a, a)) == config_blacklist(a),
        config_whitelist(joined(a, a)) == config_whitelist(a),
{
    assert forall|black: bool, name: Seq<char>| #[trigger]
        listed(joined(a, b), black, name) == listed(joined(b, a), black, name) by {
        lemma_joined_lists(a, b, black, name);
        lemma_joined_lists(b, a, black, name);
    }
    assert forall|black: bool, name: Seq<char>| #[trigger]
        listed(joined(a, a), black, name) == listed(a, black, name) by {
        lemma_joined_lists(a, a, black, name);
    }
    assert(config_blacklist(joined(a, b)) =~= config_blacklist(joined(b, a)));
    assert(config_whitelist(joined(a, b)) =~= config_whitelist(joined(b, a)));
    assert(config_blacklist(joined(a, a)) =~= config_blacklist(a));
    assert(config_whitelist(joined(a, a)) =~= config_whitelist(a));
}

/// The decision rests on the two lists and the namespace alone: filters
/// with the same lists decide alike, however often they are asked.
pub proof fn lemma_decide_deterministic(a: TargetFilter, b: TargetFilter, ns: Seq<char>)
    requires
        a.blacklist() == b.blacklist(),
        a.whitelist() == b.whitelist(),
    ensures
        decide(a.blacklist(), a.whitelist(), ns) == decide(b.blacklist(), b.whitelist(), ns),
{
}

/// A filter lets a record pass or drops it: it never accepts one outright.
pub proof fn lemma_decide_never_accepts(
    black: Set<Seq<char>>,
    white: Set<Seq<char>>,
    ns: Seq<char>,
)
    ensures
        decide(black, white, ns) != FilterResponse::Accept,
    decreases ns.len(),
{
    if !black.contains(ns) && !white.contains(ns) {
        if let Some(up) = parent(ns) {
            lemma_decide_never_accepts(black, white, up);
        }
    }
}

/// The nearest listed ancestor wins: a namespace on neither list is
/// decided as its parent is, whatever stands on the lists further up.
pub proof fn lemma_decide_inherits(
    black: Set<Seq<char>>,
    white: Set<Seq<char>>,
    ns: Seq<char>,
    k: int,
)
    requires
        last_separator_at(ns, k),
        !black.contains(ns),
        !white.contains(ns),
    ensures
        decide(black, white, ns) == decide(black, white, ns.take(k)),
{
    lemma_parent_at(ns, k);
}

} // verus!
