//! The configuration: borders, modifier key, layout ring, gap, focus policy and
//! spawn rules; and the rules' lookup for a new window.

use vstd::prelude::*;
use crate::color::Color;
use crate::geometry::{LayoutType, TagId};
use crate::modkey::ModKey;

verus! {

/// Where a new window goes, by its `WM_CLASS` or its `WM_NAME`.
#[derive(Debug)]
pub enum SpawnRule {
    ClassName(String, Vec<TagId>),
    WmName(String, Vec<TagId>),
}

/// The error of a configuration that could not be loaded.
#[derive(Debug)]
pub struct LoadConfigError {
    pub error: String,
}

impl LoadConfigError {
    pub fn new(msg: String) -> (r: LoadConfigError)
        ensures
            r.error == msg,
    {
        LoadConfigError { error: msg }
    }

    /// `Failed to load configuration: <error>`.
    pub fn message(&self) -> (r: String)
        ensures
            r@ == "Failed to load configuration: "@ + self.error@,
    {
        let mut r = String::from_str("Failed to load configuration: ");
        proof {
            reveal_strlit("Failed to load configuration: ");
        }
        r.append(self.error.as_str());
        r
    }
}

#[derive(Debug)]
pub struct Config {
    pub border_width: u32,
    pub focused_border_color: Color,
    pub normal_border_color: Color,
    pub mod_key: ModKey,
    /// The layout ring; the first is the default.
    pub layouts: Vec<LayoutType>,
    /// Focus follows the pointer.
    pub follow_cursor: bool,
    /// The gap between windows and around them.
    pub gap: u32,
    pub rules: Vec<SpawnRule>,
    /// The file the configuration was last loaded from.
    pub path: Option<String>,
}

pub open spec fn rule_is_class(r: SpawnRule) -> bool {
    r is ClassName
}

pub open spec fn rule_name(r: SpawnRule) -> Seq<char> {
    match r {
        SpawnRule::ClassName(n, _) => n@,
        SpawnRule::WmName(n, _) => n@,
    }
}

pub open spec fn rule_tags(r: SpawnRule) -> Seq<TagId> {
    match r {
        SpawnRule::ClassName(_, t) => t@,
        SpawnRule::WmName(_, t) => t@,
    }
}

/// The last rule of the given kind whose name is `name`: a later rule for the same
/// name replaces an earlier one.
pub open spec fn last_rule(rules: Seq<SpawnRule>, class: bool, name: Seq<char>, end: int) -> Option<int>
    decreases end,
{
    if 0 < end <= rules.len() {
        if rule_is_class(rules[end - 1]) == class && rule_name(rules[end - 1]) == name {
            Some(end - 1)
        } else {
            last_rule(rules, class, name, end - 1)
        }
    } else {
        None
    }
}

proof fn lemma_last_rule(rules: Seq<SpawnRule>, class: bool, name: Seq<char>, end: int)
    requires
        end <= rules.len(),
    ensures
        match last_rule(rules, class, name, end) {
            Some(k) => 0 <= k < end && rule_is_class(rules[k]) == class && rule_name(rules[k]) == name,
            None => forall|j: int| 0 <= j < end ==> !(rule_is_class(#[trigger] rules[j]) == class && rule_name(rules[j]) == name),
        },
        forall|k: int| last_rule(rules, class, name, end) == Some(k) ==> forall|j: int| k < j < end ==> !(rule_is_class(#[trigger] rules[j]) == class && rule_name(rules[j]) == name),
    decreases end,
{
    if 0 < end {
        lemma_last_rule(rules, class, name, end - 1);
    }
}

/// The text is the same as the string.
fn str_equals(a: &str, b: &String) -> (r: bool)
    ensures
        r == (a@ == b@),
{
    let n = a.unicode_len();
    let bs = b.as_str();
    if n != bs.unicode_len() {
        return false;
    }
    let mut i: usize = 0;
    while i < n
        invariant
            i <= n,
            n == a@.len(),
            n == bs@.len(),
            bs@ == b@,
            forall|j: int| 0 <= j < i ==> a@[j] == bs@[j],
        decreases n - i,
    {
        if a.get_char(i) != bs.get_char(i) {
            return false;
        }
        i = i + 1;
    }
    assert(a@ =~= b@);
    true
}

/// `s` without leading and trailing NUL characters.
pub open spec fn trim_nul(s: Seq<char>) -> Seq<char>
    decreases s.len(),
{
    if s.len() > 0 && s.last() == '\0' {
        trim_nul(s.drop_last())
    } else if s.len() > 0 && s[0] == '\0' {
        trim_nul(s.drop_first())
    } else {
        s
    }
}

/// The pieces of `s` between NUL characters.
pub open spec fn split_nul(s: Seq<char>) -> Seq<Seq<char>>
    decreases s.len(),
{
    if s.len() == 0 {
        seq![Seq::empty()]
    } else {
        let p = split_nul(s.drop_last());
        if s.last() == '\0' {
            p.push(Seq::empty())
        } else {
            p.update(p.len() - 1, p.last().push(s.last()))
        }
    }
}

/// The names in a `WM_CLASS` property: instance and class, NUL-separated.
pub open spec fn class_names(prop: Seq<char>) -> Seq<Seq<char>> {
    split_nul(trim_nul(prop))
}

proof fn lemma_trim_nul_at(s: Seq<char>, b: int, e: int)
    requires
        0 <= b <= e <= s.len(),
        forall|j: int| 0 <= j < b ==> #[trigger] s[j] == '\0',
        forall|j: int| e <= j < s.len() ==> #[trigger] s[j] == '\0',
        b < e ==> s[b] != '\0' && s[e - 1] != '\0',
        b == e ==> forall|j: int| 0 <= j < s.len() ==> #[trigger] s[j] == '\0',
    ensures
        trim_nul(s) == s.subrange(b, e),
    decreases s.len(),
{
    if s.len() > 0 && s.last() == '\0' {
        if e == s.len() {
            if b > 0 {
                assert(s.drop_last().subrange(b - 1, e - 1) =~= s.subrange(b, e));
                lemma_trim_nul_at(s.drop_last(), b - 1, e - 1);
            } else {
                lemma_trim_nul_at(s.drop_last(), 0, 0);
                assert(s.subrange(b, e) =~= Seq::<char>::empty());
                assert(s.drop_last().subrange(0, 0) =~= Seq::<char>::empty());
            }
        } else {
            assert(s.drop_last().subrange(b, e) =~= s.subrange(b, e));
            lemma_trim_nul_at(s.drop_last(), b, e);
        }
    } else if s.len() > 0 && s[0] == '\0' {
        assert(s.drop_first().subrange(b - 1, e - 1) =~= s.subrange(b, e));
        lemma_trim_nul_at(s.drop_first(), b - 1, e - 1);
    } else {
        if s.len() > 0 {
            assert(b == 0 && e == s.len()) by {
                if b > 0 {
                    assert(s[0] == '\0');
                }
                if e < s.len() {
                    assert(s[s.len() - 1] == '\0');
                }
            }
        }
        assert(s.subrange(b, e) =~= s);
    }
}

/// Splits a `WM_CLASS` property into its names.
pub fn split_class_names(prop: &str) -> (r: Vec<String>)
    ensures
        r@.map_values(|n: String| n@) == class_names(prop@),
{
    let n = prop.unicode_len();
    let mut b: usize = 0;
    while b < n && prop.get_char(b) == '\0'
        invariant
            b <= n,
            n == prop@.len(),
            forall|j: int| 0 <= j < b ==> #[trigger] prop@[j] == '\0',
        decreases n - b,
    {
        b = b + 1;
    }
    let mut e: usize = n;
    while e > b && prop.get_char(e - 1) == '\0'
        invariant
            b <= e <= n,
            n == prop@.len(),
            forall|j: int| e <= j < n ==> #[trigger] prop@[j] == '\0',
        decreases e,
    {
        e = e - 1;
    }
    proof {
        lemma_trim_nul_at(prop@, b as int, e as int);
    }
    let ghost t = prop@.subrange(b as int, e as int);
    let mut r: Vec<String> = Vec::new();
    let mut start: usize = b;
    let mut i: usize = b;
    assert(t.take(0) =~= Seq::<char>::empty());
    assert(r@.map_values(|s: String| s@) =~= Seq::<Seq<char>>::empty());
    assert(prop@.subrange(b as int, b as int) =~= Seq::<char>::empty());
    assert(Seq::<Seq<char>>::empty().push(Seq::<char>::empty()) =~= seq![Seq::<char>::empty()]);
    while i < e
        invariant
            b <= start <= i <= e <= n,
            n == prop@.len(),
            t == prop@.subrange(b as int, e as int),
            r@.map_values(|s: String| s@).push(prop@.subrange(start as int, i as int)) == split_nul(t.take(i - b)),
        decreases e - i,
    {
        let ghost before = r@.map_values(|s: String| s@);
        assert(t.take(i - b + 1).drop_last() =~= t.take(i - b));
        assert(t.take(i - b + 1).last() == prop@[i as int]);
        if prop.get_char(i) == '\0' {
            let piece = prop.substring_char(start, i).to_owned();
            r.push(piece);
            assert(r@.map_values(|s: String| s@) =~= before.push(prop@.subrange(start as int, i as int)));
            start = i + 1;
            assert(prop@.subrange(start as int, i as int + 1) =~= Seq::<char>::empty());
        } else {
            assert(prop@.subrange(start as int, i as int + 1) =~= prop@.subrange(start as int, i as int).push(prop@[i as int]));
            assert(before.push(prop@.subrange(start as int, i as int + 1)) =~= before.push(prop@.subrange(start as int, i as int)).update(
                before.len() as int, prop@.subrange(start as int, i as int).push(prop@[i as int])));
        }
        i = i + 1;
    }
    let last = prop.substring_char(start, e).to_owned();
    r.push(last);
    assert(t.take(e - b) =~= t);
    assert(r@.map_values(|s: String| s@) =~= split_nul(t));
    r
}

/// The tags the spawn rules give a window: those of the first of its class names
/// that has a class rule, else those of the name rule for its `WM_NAME`, else none.
pub open spec fn spec_rule_tags(rules: Seq<SpawnRule>, names: Seq<Seq<char>>, wm_name: Seq<char>) -> Option<Seq<TagId>>
    decreases names.len(),
{
    if names.len() > 0 {
        match last_rule(rules, true, names[0], rules.len() as int) {
            Some(k) => Some(rule_tags(rules[k])),
            None => spec_rule_tags(rules, names.drop_first(), wm_name),
        }
    } else {
        match last_rule(rules, false, wm_name, rules.len() as int) {
            Some(k) => Some(rule_tags(rules[k])),
            None => None,
        }
    }
}

impl Config {
    /// The position of the rule of that kind for that name.
    fn find_rule(&self, class: bool, name: &str) -> (r: Option<usize>)
        ensures
            opt_usize(r) == last_rule(self.rules@, class, name@, self.rules@.len() as int),
    {
        let mut i: usize = self.rules.len();
        while i > 0
            invariant
                i <= self.rules@.len(),
                last_rule(self.rules@, class, name@, self.rules@.len() as int) == last_rule(self.rules@, class, name@, i as int),
            decreases i,
        {
            let hit = match &self.rules[i - 1] {
                SpawnRule::ClassName(n, _) => class && str_equals(name, n),
                SpawnRule::WmName(n, _) => !class && str_equals(name, n),
            };
            if hit {
                return Some(i - 1);
            }
            i = i - 1;
        }
        None
    }

    /// The tags that the spawn rules give a window with this `WM_CLASS` property
    /// and this `WM_NAME`.
    pub fn rule_tags_for(&self, class_prop: &str, wm_name: &str) -> (r: Option<Vec<TagId>>)
        ensures
            match r {
                Some(t) => spec_rule_tags(self.rules@, class_names(class_prop@), wm_name@) == Some(t@),
                None => spec_rule_tags(self.rules@, class_names(class_prop@), wm_name@) is None,
            },
    {
        let names = split_class_names(class_prop);
        let ghost all = names@.map_values(|n: String| n@);
        let mut i: usize = 0;
        assert(all.skip(0) =~= all);
        while i < names.len()
            invariant
                i <= names@.len(),
                all == names@.map_values(|n: String| n@),
                all == class_names(class_prop@),
                spec_rule_tags(self.rules@, all, wm_name@) == spec_rule_tags(self.rules@, all.skip(i as int), wm_name@),
            decreases names.len() - i,
        {
            assert(all.skip(i as int).drop_first() =~= all.skip(i as int + 1));
            assert(all.skip(i as int)[0] == names@[i as int]@);
            proof {
                lemma_last_rule(self.rules@, true, names@[i as int]@, self.rules@.len() as int);
            }
            if let Some(k) = self.find_rule(true, names[i].as_str()) {
                return Some(self.rule_tag_list(k));
            }
            i = i + 1;
        }
        assert(all.skip(i as int) =~= Seq::<Seq<char>>::empty());
        proof {
            lemma_last_rule(self.rules@, false, wm_name@, self.rules@.len() as int);
        }
        match self.find_rule(false, wm_name) {
            Some(k) => Some(self.rule_tag_list(k)),
            None => None,
        }
    }

    fn rule_tag_list(&self, k: usize) -> (r: Vec<TagId>)
        requires
            k < self.rules@.len(),
        ensures
            r@ == rule_tags(self.rules@[k as int]),
    {
        let tags = match &self.rules[k] {
            SpawnRule::ClassName(_, t) => t,
            SpawnRule::WmName(_, t) => t,
        };
        let mut r: Vec<TagId> = Vec::new();
        let mut i: usize = 0;
        while i < tags.len()
            invariant
                i <= tags@.len(),
                r@ == tags@.take(i as int),
            decreases tags.len() - i,
        {
            r.push(tags[i]);
            assert(r@ =~= tags@.take(i as int + 1));
            i = i + 1;
        }
        assert(tags@.take(tags@.len() as int) =~= tags@);
        r
    }
}

pub open spec fn opt_usize(r: Option<usize>) -> Option<int> {
    match r {
        Some(i) => Some(i as int),
        None => None,
    }
}

impl Config {
    /// The configuration used when no file is given.
    pub open spec fn spec_default(self) -> bool {
        &&& self.border_width == 4
        &&& self.focused_border_color == Color { red: 0, green: 0, blue: 255 }
        &&& self.normal_border_color == Color { red: 211, green: 211, blue: 211 }
        &&& self.mod_key == ModKey::Mod1
        &&& self.layouts@ == seq![LayoutType::MonadTall, LayoutType::Grid, LayoutType::Floating]
        &&& self.follow_cursor
        &&& self.gap == 4
        &&& self.rules@.len() == 0
        &&& self.path is None
    }

    /// The file a `Config Load` reads: the one asked for, else the one loaded last.
    pub fn load_path(&self, requested: Option<String>) -> (r: Result<String, LoadConfigError>)
        ensures
            match requested {
                Some(p) => (r matches Ok(q) && q == p),
                None => match self.path {
                    Some(p) => (r matches Ok(q) && q == p),
                    None => r is Err,
                },
            },
    {
        match requested {
            Some(p) => Ok(p),
            None => match &self.path {
                Some(p) => Ok(p.clone()),
                None => Err(LoadConfigError::new(String::from_str("No configuration file specified"))),
            },
        }
    }
}

impl Default for Config {
    fn default() -> (r: Config)
        ensures
            r.spec_default(),
    {
        Config {
            border_width: 4,
            focused_border_color: Color::blue(),
            normal_border_color: Color::new(211, 211, 211),
            mod_key: ModKey::Mod1,
            layouts: vec![LayoutType::MonadTall, LayoutType::Grid, LayoutType::Floating],
            follow_cursor: true,
            gap: 4,
            rules: Vec::new(),
            path: None,
        }
    }
}

} // verus!
