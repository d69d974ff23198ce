//! Hierarchical key expressions (`{robot_id}/{subsystem}/{topic}` or
//! `_global/{topic}`) and zenoh-style wildcard matching:
//! `*` matches exactly one level, `**` matches zero or more levels.

use vstd::prelude::*;
use crate::text::{
    char_views, chars_eq, chars_of, find_char, lemma_split_concat, lemma_split_first,
    lemma_split_injective, lemma_split_no_sep, lemma_split_nonempty, split_chars, split_on,
};

verus! {

/// A hierarchical topic key such as `robot-01/lidar/scan`.
#[derive(Debug, PartialEq, Eq, Hash)]
pub struct KeyExpr(pub String);

/// Wildcard matcher for key expressions.
pub struct KeyExprMatcher;

/// The level name reserved for topics shared by all robots.
pub open spec fn global_level() -> Seq<char> {
    seq!['_', 'g', 'l', 'o', 'b', 'a', 'l']
}

/// The single-level wildcard `*`.
pub open spec fn star() -> Seq<char> {
    seq!['*']
}

/// The multi-level wildcard `**`.
pub open spec fn double_star() -> Seq<char> {
    seq!['*', '*']
}

/// The levels of a key or pattern.
pub open spec fn levels(s: Seq<char>) -> Seq<Seq<char>> {
    split_on(s, '/')
}

/// Whether the levels of `key` match the levels of `pattern`.
pub open spec fn match_levels(key: Seq<Seq<char>>, pattern: Seq<Seq<char>>) -> bool
    decreases key.len() + pattern.len(),
{
    if pattern.len() == 0 {
        key.len() == 0
    } else if pattern[0] == double_star() {
        match_levels(key, pattern.drop_first()) || (key.len() > 0 && match_levels(
            key.drop_first(),
            pattern,
        ))
    } else if key.len() == 0 {
        false
    } else if pattern[0] == star() || pattern[0] == key[0] {
        match_levels(key.drop_first(), pattern.drop_first())
    } else {
        false
    }
}

/// Whether the key string `key` matches the pattern string `pattern`.
pub open spec fn key_matches(key: Seq<char>, pattern: Seq<char>) -> bool {
    match_levels(levels(key), levels(pattern))
}

/// The robot a key belongs to: its first level, unless that level is `_global`.
pub open spec fn robot_of(key: Seq<char>) -> Option<Seq<char>> {
    let first = levels(key)[0];
    if first == global_level() {
        None
    } else {
        Some(first)
    }
}

/// A level that is neither `*` nor `**`.
pub open spec fn is_literal_level(l: Seq<char>) -> bool {
    l != star() && l != double_star()
}

/// A pattern none of whose levels is a wildcard.
pub open spec fn is_literal_pattern(p: Seq<Seq<char>>) -> bool {
    forall|i: int| 0 <= i < p.len() ==> is_literal_level(#[trigger] p[i])
}

impl KeyExpr {
    /// A per-robot key `{robot_id}/{subsystem}/{topic}`.
    pub fn new(robot_id: &str, subsystem: &str, topic: &str) -> (k: KeyExpr)
        ensures
            k.0@ == robot_id@.push('/') + subsystem@.push('/') + topic@,
    {
        let mut s = String::from_str(robot_id);
        s.append("/");
        s.append(subsystem);
        s.append("/");
        s.append(topic);
        proof {
            reveal_strlit("/");
            assert(s@ =~= robot_id@.push('/') + subsystem@.push('/') + topic@);
        }
        KeyExpr(s)
    }

    /// A key shared by all robots: `_global/{topic}`.
    pub fn global(topic: &str) -> (k: KeyExpr)
        ensures
            k.0@ == global_level().push('/') + topic@,
    {
        let mut s = String::from_str("_global/");
        s.append(topic);
        proof {
            reveal_strlit("_global/");
            assert(s@ =~= global_level().push('/') + topic@);
        }
        KeyExpr(s)
    }

    /// The robot id: the first level of the key, or `None` for `_global` keys.
    pub fn robot_id(&self) -> (r: Option<&str>)
        ensures
            robot_of(self.0@) matches Some(id) ==> r matches Some(x) && x@ == id,
            robot_of(self.0@) is None ==> r is None,
    {
        let chars = chars_of(self.0.as_str());
        let k = find_char(&chars, '/');
        proof {
            lemma_split_first(self.0@, '/');
        }
        let first = self.0.as_str().substring_char(0, k);
        let global = chars_of("_global");
        let first_chars = chars_of(first);
        proof {
            reveal_strlit("_global");
            assert(global@ =~= global_level());
            assert(first_chars@ =~= levels(self.0@)[0]);
        }
        if chars_eq(&first_chars, &global) {
            None
        } else {
            Some(first)
        }
    }

    /// The key as a string slice.
    pub fn as_str(&self) -> (s: &str)
        ensures
            s@ == self.0@,
    {
        self.0.as_str()
    }

    /// Whether this key matches a wildcard pattern.
    pub fn matches(&self, pattern: &str) -> (r: bool)
        ensures
            r == key_matches(self.0@, pattern@),
    {
        KeyExprMatcher::matches(self, pattern)
    }
}

impl Clone for KeyExpr {
    fn clone(&self) -> (k: Self)
        ensures
            k == *self,
    {
        KeyExpr(self.0.clone())
    }
}

/// Whether the level `v` is the literal text `**`.
fn is_double_star(v: &Vec<char>) -> (r: bool)
    ensures
        r == (v@ == double_star()),
{
    let r = v.len() == 2 && v[0] == '*' && v[1] == '*';
    proof {
        if v@ == double_star() {
            assert(v@[0] == '*' && v@[1] == '*');
        }
        if r {
            assert(v@ =~= double_star());
        }
    }
    r
}

/// Whether the level `v` is the literal text `*`.
fn is_star(v: &Vec<char>) -> (r: bool)
    ensures
        r == (v@ == star()),
{
    let r = v.len() == 1 && v[0] == '*';
    proof {
        if v@ == star() {
            assert(v@[0] == '*');
        }
        if r {
            assert(v@ =~= star());
        }
    }
    r
}

impl KeyExprMatcher {
    /// Whether a key matches a wildcard pattern.
    ///
    /// `robot-01/lidar/scan` matches exactly; `robot-01/*/scan` lets `*` stand
    /// for one level; `robot-01/**` lets `**` stand for zero or more levels.
    pub fn matches(key: &KeyExpr, pattern: &str) -> (r: bool)
        ensures
            r == key_matches(key.0@, pattern@),
    {
        let key_chars = chars_of(key.as_str());
        let pattern_chars = chars_of(pattern);
        let key_parts = split_chars(&key_chars, '/');
        let pattern_parts = split_chars(&pattern_chars, '/');
        proof {
            assert(char_views(key_parts@).skip(0) =~= char_views(key_parts@));
            assert(char_views(pattern_parts@).skip(0) =~= char_views(pattern_parts@));
        }
        Self::match_parts(&key_parts, 0, &pattern_parts, 0)
    }

    /// Matches the key levels from `ki` on against the pattern levels from `pi` on.
    fn match_parts(key: &Vec<Vec<char>>, ki: usize, pattern: &Vec<Vec<char>>, pi: usize) -> (r:
        bool)
        requires
            ki <= key.len(),
            pi <= pattern.len(),
        ensures
            r == match_levels(
                char_views(key@).skip(ki as int),
                char_views(pattern@).skip(pi as int),
            ),
        decreases key.len() - ki + pattern.len() - pi,
    {
        let ghost k = char_views(key@).skip(ki as int);
        let ghost p = char_views(pattern@).skip(pi as int);
        if pi == pattern.len() {
            return ki == key.len();
        }
        assert(p[0] == pattern@[pi as int]@);
        assert(p.drop_first() =~= char_views(pattern@).skip(pi + 1));
        if ki < key.len() {
            assert(k[0] == key@[ki as int]@);
            assert(k.drop_first() =~= char_views(key@).skip(ki + 1));
        }
        if is_double_star(&pattern[pi]) {
            if Self::match_parts(key, ki, pattern, pi + 1) {
                return true;
            }
            if ki < key.len() {
                return Self::match_parts(key, ki + 1, pattern, pi);
            }
            return false;
        }
        if ki == key.len() {
            return false;
        }
        if is_star(&pattern[pi]) || chars_eq(&pattern[pi], &key[ki]) {
            return Self::match_parts(key, ki + 1, pattern, pi + 1);
        }
        false
    }
}

/// `**` alone matches any list of levels.
proof fn lemma_double_star_levels(k: Seq<Seq<char>>)
    ensures
        match_levels(k, seq![double_star()]),
    decreases k.len(),
{
    let p = seq![double_star()];
    assert(p.drop_first() =~= Seq::<Seq<char>>::empty());
    if k.len() > 0 {
        lemma_double_star_levels(k.drop_first());
    } else {
        assert(match_levels(k, p.drop_first()));
    }
}

/// A literal pattern matches exactly the equal list of levels.
proof fn lemma_literal_levels(k: Seq<Seq<char>>, p: Seq<Seq<char>>)
    requires
        is_literal_pattern(p),
    ensures
        match_levels(k, p) <==> k == p,
    decreases k.len() + p.len(),
{
    if p.len() == 0 {
        if k.len() == 0 {
            assert(k =~= p);
        }
    } else {
        assert(is_literal_level(p[0]));
        assert(is_literal_pattern(p.drop_first())) by {
            assert forall|i: int| 0 <= i < p.drop_first().len() implies is_literal_level(
                #[trigger] p.drop_first()[i],
            ) by {
                assert(p.drop_first()[i] == p[i + 1]);
            }
        }
        if k.len() > 0 {
            lemma_literal_levels(k.drop_first(), p.drop_first());
            if k == p {
                assert(k.drop_first() =~= p.drop_first());
            }
            if k[0] == p[0] && k.drop_first() == p.drop_first() {
                assert(k =~= p) by {
                    assert forall|i: int| 0 <= i < k.len() implies k[i] == p[i] by {
                        if i > 0 {
                            assert(k[i] == k.drop_first()[i - 1]);
                            assert(p[i] == p.drop_first()[i - 1]);
                        }
                    }
                }
            }
        }
    }
}

/// `prefix ++ [**]` with a literal prefix matches exactly the lists that start with `prefix`.
proof fn lemma_prefix_levels(k: Seq<Seq<char>>, prefix: Seq<Seq<char>>)
    requires
        is_literal_pattern(prefix),
    ensures
        match_levels(k, prefix.push(double_star())) <==> (prefix.len() <= k.len() && k.take(
            prefix.len() as int,
        ) == prefix),
    decreases prefix.len(),
{
    let p = prefix.push(double_star());
    if prefix.len() == 0 {
        assert(p =~= seq![double_star()]);
        lemma_double_star_levels(k);
        assert(k.take(0) =~= prefix);
    } else {
        assert(is_literal_level(prefix[0]));
        assert(p[0] == prefix[0]);
        assert(p.drop_first() =~= prefix.drop_first().push(double_star()));
        assert(is_literal_pattern(prefix.drop_first())) by {
            assert forall|i: int| 0 <= i < prefix.drop_first().len() implies is_literal_level(
                #[trigger] prefix.drop_first()[i],
            ) by {
                assert(prefix.drop_first()[i] == prefix[i + 1]);
            }
        }
        if k.len() > 0 {
            lemma_prefix_levels(k.drop_first(), prefix.drop_first());
            let n = prefix.len() as int;
            if n <= k.len() && k.take(n) == prefix {
                assert(k[0] == prefix[0]);
                assert(k.drop_first().take(n - 1) =~= prefix.drop_first()) by {
                    assert forall|i: int| 0 <= i < n - 1 implies k.drop_first().take(n - 1)[i]
                        == prefix.drop_first()[i] by {
                        assert(k.take(n)[i + 1] == prefix[i + 1]);
                    }
                }
            }
            if k[0] == prefix[0] && n - 1 <= k.drop_first().len() && k.drop_first().take(n - 1)
                == prefix.drop_first() {
                assert(k.take(n) =~= prefix) by {
                    assert forall|i: int| 0 <= i < n implies k.take(n)[i] == prefix[i] by {
                        if i > 0 {
                            assert(k.drop_first().take(n - 1)[i - 1] == prefix.drop_first()[i
                                - 1]);
                        }
                    }
                }
            }
            if n <= k.len() && k.take(n) == prefix {
                assert(k.take(n)[0] == prefix[0]);
            }
        }
    }
}

/// `s` splits into exactly one level iff it has no `/`.
proof fn lemma_single_level(s: Seq<char>)
    ensures
        levels(s).len() == 1 <==> !s.contains('/'),
{
    if s.contains('/') {
        lemma_split_first(s, '/');
        let k = crate::text::first_index_of(s, '/');
        if k == s.len() {
            let j = choose|j: int| 0 <= j < s.len() && s[j] == '/';
            assert(s.take(k)[j] == '/');
            lemma_split_nonempty(s, '/');
            crate::text::lemma_split_pieces_free(s, '/');
            assert(levels(s)[0].contains('/'));
        } else {
            let a = s.take(k);
            let b = s.skip(k + 1);
            assert(a.push('/') + b =~= s);
            lemma_split_concat(a, b, '/');
            lemma_split_nonempty(a, '/');
            lemma_split_nonempty(b, '/');
        }
    } else {
        lemma_split_no_sep(s, '/');
    }
}

/// `**` matches every key.
pub proof fn law_double_star_matches_every_key(key: Seq<char>)
    ensures
        key_matches(key, double_star()),
{
    assert(!double_star().contains('/')) by {
        if double_star().contains('/') {
            let j = choose|j: int| 0 <= j < 2 && double_star()[j] == '/';
        }
    }
    lemma_split_no_sep(double_star(), '/');
    lemma_double_star_levels(levels(key));
}

/// `*` matches exactly the keys of one level.
pub proof fn law_star_matches_one_level(key: Seq<char>)
    ensures
        key_matches(key, star()) <==> !key.contains('/'),
{
    assert(!star().contains('/')) by {
        if star().contains('/') {
            let j = choose|j: int| 0 <= j < 1 && star()[j] == '/';
        }
    }
    lemma_split_no_sep(star(), '/');
    let k = levels(key);
    let p = seq![star()];
    assert(p.drop_first() =~= Seq::<Seq<char>>::empty());
    assert(star() != double_star()) by {
        assert(star().len() != double_star().len());
    }
    lemma_single_level(key);
    lemma_split_nonempty(key, '/');
    if k.len() > 0 {
        assert(match_levels(k.drop_first(), p.drop_first()) <==> k.drop_first().len() == 0);
    }
}

/// A pattern without wildcard levels matches exactly the key equal to it.
pub proof fn law_literal_pattern_matches_only_itself(key: Seq<char>, pattern: Seq<char>)
    requires
        is_literal_pattern(levels(pattern)),
    ensures
        key_matches(key, pattern) <==> key == pattern,
{
    lemma_literal_levels(levels(key), levels(pattern));
    if levels(key) == levels(pattern) {
        lemma_split_injective(key, pattern, '/');
    }
}

/// `prefix/**` (with a literal prefix) matches exactly the keys whose levels begin with
/// the levels of `prefix`.
pub proof fn law_prefix_wildcard(key: Seq<char>, prefix: Seq<char>)
    requires
        is_literal_pattern(levels(prefix)),
    ensures
        key_matches(key, prefix.push('/') + double_star()) <==> (levels(prefix).len() <= levels(
            key,
        ).len() && levels(key).take(levels(prefix).len() as int) == levels(prefix)),
{
    assert(!double_star().contains('/')) by {
        if double_star().contains('/') {
            let j = choose|j: int| 0 <= j < 2 && double_star()[j] == '/';
        }
    }
    lemma_split_no_sep(double_star(), '/');
    lemma_split_concat(prefix, double_star(), '/');
    assert(levels(prefix) + seq![double_star()] =~= levels(prefix).push(double_star()));
    lemma_prefix_levels(levels(key), levels(prefix));
}

/// A per-robot key has the three given levels and belongs to the given robot.
pub proof fn law_new_levels_and_robot(robot: Seq<char>, subsystem: Seq<char>, topic: Seq<char>)
    requires
        !robot.contains('/'),
        !subsystem.contains('/'),
        !topic.contains('/'),
    ensures
        levels(robot.push('/') + subsystem.push('/') + topic) == seq![robot, subsystem, topic],
        robot != global_level() ==> robot_of(robot.push('/') + subsystem.push('/') + topic)
            == Some(robot),
{
    lemma_split_no_sep(robot, '/');
    lemma_split_no_sep(subsystem, '/');
    lemma_split_no_sep(topic, '/');
    lemma_split_concat(subsystem, topic, '/');
    let rest = subsystem.push('/') + topic;
    lemma_split_concat(robot, rest, '/');
    assert(robot.push('/') + rest =~= robot.push('/') + subsystem.push('/') + topic);
    assert(seq![robot] + (seq![subsystem] + seq![topic]) =~= seq![robot, subsystem, topic]);
}

/// A global key belongs to no robot.
pub proof fn law_global_has_no_robot(topic: Seq<char>)
    ensures
        robot_of(global_level().push('/') + topic) is None,
{
    assert(!global_level().contains('/')) by {
        if global_level().contains('/') {
            let j = choose|j: int| 0 <= j < 7 && global_level()[j] == '/';
        }
    }
    lemma_split_no_sep(global_level(), '/');
    lemma_split_concat(global_level(), topic, '/');
}

} // verus!
