//! User scripts that run when the tunnel comes up or goes down.

use vstd::prelude::*;
use vstd::string::*;

use crate::text::{chars_of, str_eq};

verus! {

/// Whether a text comes before another: at the first place where they differ
/// its character is the smaller one, or it is a proper prefix.
pub open spec fn text_before(a: Seq<char>, b: Seq<char>) -> bool
    decreases a.len(),
{
    if b.len() == 0 {
        false
    } else if a.len() == 0 {
        true
    } else if a[0] != b[0] {
        a[0] < b[0]
    } else {
        text_before(a.drop_first(), b.drop_first())
    }
}

proof fn lemma_text_before_total(a: Seq<char>, b: Seq<char>)
    ensures
        a == b || text_before(a, b) || text_before(b, a),
        !(text_before(a, b) && text_before(b, a)),
        !text_before(a, a),
    decreases a.len(),
{
    if a.len() > 0 && b.len() > 0 && a[0] == b[0] {
        lemma_text_before_total(a.drop_first(), b.drop_first());
        if a.drop_first() == b.drop_first() {
            assert(a =~= seq![a[0]] + a.drop_first());
            assert(b =~= seq![b[0]] + b.drop_first());
        }
    }
    if a.len() > 0 {
        lemma_text_before_total(a.drop_first(), a.drop_first());
    }
    if a.len() == 0 && b.len() == 0 {
        assert(a =~= b);
    }
}

proof fn lemma_text_before_trans(a: Seq<char>, b: Seq<char>, c: Seq<char>)
    requires
        text_before(a, b),
        text_before(b, c),
    ensures
        text_before(a, c),
    decreases a.len(),
{
    if a.len() > 0 && a[0] == b[0] && b[0] == c[0] {
        lemma_text_before_trans(a.drop_first(), b.drop_first(), c.drop_first());
    }
}

/// Tells whether a text comes before another.
pub fn comes_before(a: &str, b: &str) -> (r: bool)
    ensures
        r == text_before(a@, b@),
{
    let x = chars_of(a);
    let y = chars_of(b);
    let mut i: usize = 0;
    assert(x@.skip(0) =~= x@);
    assert(y@.skip(0) =~= y@);
    loop
        invariant
            i <= x@.len(),
            i <= y@.len(),
            x@ == a@,
            y@ == b@,
            text_before(a@, b@) == text_before(x@.skip(i as int), y@.skip(i as int)),
        decreases x@.len() - i,
    {
        if i == y.len() {
            return false;
        }
        if i == x.len() {
            return true;
        }
        if x[i] != y[i] {
            return x[i] < y[i];
        }
        assert(x@.skip(i as int).drop_first() =~= x@.skip(i + 1));
        assert(y@.skip(i as int).drop_first() =~= y@.skip(i + 1));
        i = i + 1;
    }
}

/// The names and values of a list of pairs of strings.
pub open spec fn pair_texts(pairs: Seq<(String, String)>) -> Seq<(Seq<char>, Seq<char>)> {
    pairs.map_values(|p: (String, String)| (p.0@, p.1@))
}

/// The value that a list of pairs gives to a name: that of the first pair
/// with it.
pub open spec fn lookup(pairs: Seq<(Seq<char>, Seq<char>)>, name: Seq<char>) -> Option<Seq<char>>
    decreases pairs.len(),
{
    if pairs.len() == 0 {
        None
    } else if pairs[0].0 == name {
        Some(pairs[0].1)
    } else {
        lookup(pairs.drop_first(), name)
    }
}

/// Whether the names of a list of pairs are in ascending order, each once.
pub open spec fn ascending(pairs: Seq<(Seq<char>, Seq<char>)>) -> bool {
    forall|i: int, j: int|
        0 <= i < j < pairs.len() ==> text_before(#[trigger] pairs[i].0, #[trigger] pairs[j].0)
}

proof fn lemma_lookup_absent(pairs: Seq<(Seq<char>, Seq<char>)>, name: Seq<char>)
    requires
        forall|i: int| 0 <= i < pairs.len() ==> (#[trigger] pairs[i]).0 != name,
    ensures
        lookup(pairs, name) is None,
    decreases pairs.len(),
{
    if pairs.len() > 0 {
        let rest = pairs.drop_first();
        assert forall|i: int| 0 <= i < rest.len() implies (#[trigger] rest[i]).0 != name by {
            assert(rest[i] == pairs[i + 1]);
        }
        lemma_lookup_absent(rest, name);
        assert(pairs[0].0 != name);
    }
}

/// What a pair in the middle of a list means for a lookup.
proof fn lemma_lookup_split(
    front: Seq<(Seq<char>, Seq<char>)>,
    back: Seq<(Seq<char>, Seq<char>)>,
    name: Seq<char>,
)
    ensures
        lookup(front + back, name) == (match lookup(front, name) {
            Some(v) => Some(v),
            None => lookup(back, name),
        }),
    decreases front.len(),
{
    if front.len() == 0 {
        assert(front + back =~= back);
    } else {
        assert((front + back).drop_first() =~= front.drop_first() + back);
        assert((front + back)[0] == front[0]);
        lemma_lookup_split(front.drop_first(), back, name);
    }
}

/// The environment variables that a hook gets besides those of the process.
pub struct HookEnv {
    values: Vec<(String, String)>,
}

impl HookEnv {
    /// The variables, by name in ascending order.
    pub closed spec fn pairs(&self) -> Seq<(Seq<char>, Seq<char>)> {
        pair_texts(self.values@)
    }

    /// No variable is there twice, and they are in order.
    pub open spec fn wf(&self) -> bool {
        ascending(self.pairs())
    }

    /// The number of variables.
    pub fn len(&self) -> (n: usize)
        ensures
            n == self.pairs().len(),
    {
        self.values.len()
    }

    /// The value of a variable.
    pub fn get(&self, key: &str) -> (r: Option<&str>)
        ensures
            r is Some <==> lookup(self.pairs(), key@) is Some,
            r matches Some(v) ==> lookup(self.pairs(), key@) == Some(v@),
    {
        let mut i: usize = 0;
        assert(self.pairs().skip(0) =~= self.pairs());
        while i < self.values.len()
            invariant
                i <= self.values@.len(),
                lookup(self.pairs().skip(i as int), key@) == lookup(self.pairs(), key@),
            decreases self.values@.len() - i,
        {
            let pair = &self.values[i];
            assert(self.pairs().skip(i as int)[0] == (pair.0@, pair.1@));
            if str_eq(pair.0.as_str(), key) {
                return Some(pair.1.as_str());
            }
            assert(self.pairs().skip(i as int).drop_first() =~= self.pairs().skip(i + 1));
            i = i + 1;
        }
        None
    }

    /// Sets a variable, in place of the value that it had.
    pub fn with(self, key: &str, value: &str) -> (r: Self)
        requires
            self.wf(),
        ensures
            r.wf(),
            forall|name: Seq<char>| #[trigger]
                lookup(r.pairs(), name) == (if name == key@ {
                    Some(value@)
                } else {
                    lookup(self.pairs(), name)
                }),
    {
        let ghost old_pairs = self.pairs();
        let mut values = self.values;
        let mut i: usize = 0;
        while i < values.len() && comes_before(values[i].0.as_str(), key)
            invariant
                i <= values@.len(),
                pair_texts(values@) == old_pairs,
                forall|j: int| 0 <= j < i ==> text_before(#[trigger] old_pairs[j].0, key@),
            decreases values@.len() - i,
        {
            assert(old_pairs[i as int].0 == values@[i as int].0@);
            i = i + 1;
        }
        let ghost front = old_pairs.take(i as int);
        let ghost pair = (key@, value@);
        proof {
            assert forall|j: int| 0 <= j < front.len() implies (#[trigger] front[j]).0 != key@ by {
                assert(front[j] == old_pairs[j]);
                lemma_text_before_total(key@, key@);
            }
        }
        if i < values.len() && str_eq(values[i].0.as_str(), key) {
            let ghost back = old_pairs.skip(i + 1);
            assert(old_pairs[i as int].0 == values@[i as int].0@);
            values[i] = (key.to_owned(), value.to_owned());
            let r = HookEnv { values };
            proof {
                let mid = seq![pair] + back;
                assert(r.pairs() =~= front + mid);
                assert(old_pairs =~= front + (seq![old_pairs[i as int]] + back));
                assert forall|name: Seq<char>| #[trigger]
                    lookup(r.pairs(), name) == (if name == key@ {
                        Some(value@)
                    } else {
                        lookup(old_pairs, name)
                    }) by {
                    lemma_lookup_split(front, mid, name);
                    lemma_lookup_split(front, seq![old_pairs[i as int]] + back, name);
                    lemma_lookup_absent(front, key@);
                    assert(mid.drop_first() =~= back);
                    assert((seq![old_pairs[i as int]] + back).drop_first() =~= back);
                }
                assert(r.wf());
            }
            r
        } else {
            let ghost back = old_pairs.skip(i as int);
            proof {
                if i < old_pairs.len() {
                    assert(old_pairs[i as int].0 == values@[i as int].0@);
                    lemma_text_before_total(old_pairs[i as int].0, key@);
                }
                assert forall|j: int| i <= j < old_pairs.len() implies text_before(
                    key@,
                    #[trigger] old_pairs[j].0,
                ) by {
                    if j > i {
                        lemma_text_before_trans(key@, old_pairs[i as int].0, old_pairs[j].0);
                    }
                }
                assert forall|j: int| 0 <= j < back.len() implies (#[trigger] back[j]).0 != key@ by {
                    assert(back[j] == old_pairs[i + j]);
                    lemma_text_before_total(key@, key@);
                }
            }
            values.insert(i, (key.to_owned(), value.to_owned()));
            let r = HookEnv { values };
            proof {
                let mid = seq![pair] + back;
                assert(r.pairs() =~= front + mid);
                assert(old_pairs =~= front + back);
                assert forall|name: Seq<char>| #[trigger]
                    lookup(r.pairs(), name) == (if name == key@ {
                        Some(value@)
                    } else {
                        lookup(old_pairs, name)
                    }) by {
                    lemma_lookup_split(front, mid, name);
                    lemma_lookup_split(front, back, name);
                    lemma_lookup_absent(front, key@);
                    assert(mid.drop_first() =~= back);
                }
                assert forall|a: int, b: int| 0 <= a < b < r.pairs().len() implies text_before(
                    #[trigger] r.pairs()[a].0,
                    #[trigger] r.pairs()[b].0,
                ) by {
                    if a < i {
                        assert(r.pairs()[a] == old_pairs[a]);
                    }
                    if b < i {
                        assert(r.pairs()[b] == old_pairs[b]);
                    } else if b > i {
                        assert(r.pairs()[b] == old_pairs[b - 1]);
                    }
                    if a > i {
                        assert(r.pairs()[a] == old_pairs[a - 1]);
                    }
                }
            }
            r
        }
    }

    /// A copy.
    pub fn copy(&self) -> (r: Self)
        ensures
            r.pairs() == self.pairs(),
    {
        let values = self.entries();
        let r = HookEnv { values };
        assert(r.pairs() =~= self.pairs());
        r
    }

    /// The variables, by name in ascending order.
    pub fn entries(&self) -> (out: Vec<(String, String)>)
        ensures
            pair_texts(out@) == self.pairs(),
    {
        let mut out: Vec<(String, String)> = Vec::new();
        let mut i: usize = 0;
        while i < self.values.len()
            invariant
                i <= self.values@.len(),
                pair_texts(out@) =~= self.pairs().take(i as int),
            decreases self.values@.len() - i,
        {
            let pair = &self.values[i];
            let ghost before = out@;
            out.push((pair.0.clone(), pair.1.clone()));
            i = i + 1;
            assert(pair_texts(out@) =~= pair_texts(before).push((pair.0@, pair.1@)));
        }
        assert(self.pairs().take(self.values@.len() as int) =~= self.pairs());
        out
    }
}

impl Default for HookEnv {
    fn default() -> (r: Self)
        ensures
            r.pairs() == Seq::<(Seq<char>, Seq<char>)>::empty(),
            r.wf(),
    {
        let r = HookEnv { values: Vec::new() };
        assert(r.pairs() =~= Seq::<(Seq<char>, Seq<char>)>::empty());
        r
    }
}

/// The environment variable that tells a hook what happened.
pub const EVENT_VARIABLE: &'static str = "USQUE_EVENT";

/// What it takes to run a hook: the program, the prefix of its output in the
/// log, and the variables to set besides those of the process, in order.
pub struct HookRun {
    pub path: String,
    pub prefix: String,
    pub env: Vec<(String, String)>,
}

/// The event that a hook's variables name.
pub open spec fn hook_event(pairs: Seq<(Seq<char>, Seq<char>)>) -> Seq<char> {
    match lookup(pairs, EVENT_VARIABLE@) {
        Some(event) => event,
        None => "hook"@,
    }
}

/// Plans the run of a hook. Without a path there is none.
pub fn run_hook(path: &str, extra: HookEnv) -> (r: Option<HookRun>)
    ensures
        r is None <==> path@.len() == 0,
        r matches Some(run) ==> {
            &&& run.path@ == path@
            &&& run.prefix@ == "hook["@ + hook_event(extra.pairs()) + "]"@
            &&& pair_texts(run.env@) == extra.pairs()
        },
{
    if path.is_empty() {
        return None;
    }
    let prefix = match extra.get(EVENT_VARIABLE) {
        Some(event) => "hook[".to_owned().concat(event).concat("]"),
        None => "hook[".to_owned().concat("hook").concat("]"),
    };
    Some(HookRun { path: path.to_owned(), prefix, env: extra.entries() })
}

/// Where a list of pairs has a name, a lookup finds it, and what a lookup
/// finds is there.
proof fn lemma_lookup_present(pairs: Seq<(Seq<char>, Seq<char>)>, name: Seq<char>)
    ensures
        lookup(pairs, name) is Some <==> exists|i: int|
            0 <= i < pairs.len() && (#[trigger] pairs[i]).0 == name,
    decreases pairs.len(),
{
    if pairs.len() > 0 {
        let rest = pairs.drop_first();
        lemma_lookup_present(rest, name);
        if exists|i: int| 0 <= i < pairs.len() && (#[trigger] pairs[i]).0 == name {
            let i = choose|i: int| 0 <= i < pairs.len() && (#[trigger] pairs[i]).0 == name;
            if i > 0 {
                assert(rest[i - 1].0 == name);
            }
        }
        if exists|i: int| 0 <= i < rest.len() && (#[trigger] rest[i]).0 == name {
            let i = choose|i: int| 0 <= i < rest.len() && (#[trigger] rest[i]).0 == name;
            assert(pairs[i + 1].0 == name);
        }
        if pairs[0].0 == name {
            assert(lookup(pairs, name) is Some);
        }
    }
}

/// Variables in order are fixed by the values that they have: two lists that
/// give every name the same value are the same.
pub proof fn law_variables_are_fixed_by_their_values(
    a: Seq<(Seq<char>, Seq<char>)>,
    b: Seq<(Seq<char>, Seq<char>)>,
)
    requires
        ascending(a),
        ascending(b),
        forall|name: Seq<char>| #[trigger] lookup(a, name) == lookup(b, name),
    ensures
        a == b,
    decreases a.len(),
{
    if a.len() > 0 && b.len() > 0 {
        let (x, y) = (a[0].0, b[0].0);
        assert(lookup(a, x) == lookup(b, x));
        assert(lookup(a, y) == lookup(b, y));
        lemma_lookup_present(b, x);
        lemma_lookup_present(a, y);
        if x != y {
            let i = choose|i: int| 0 <= i < b.len() && (#[trigger] b[i]).0 == x;
            let j = choose|j: int| 0 <= j < a.len() && (#[trigger] a[j]).0 == y;
            assert(text_before(b[0].0, b[i].0));
            assert(text_before(a[0].0, a[j].0));
            lemma_text_before_total(x, y);
        }
        let (s, t) = (a.drop_first(), b.drop_first());
        assert forall|name: Seq<char>| #[trigger] lookup(s, name) == lookup(t, name) by {
            assert(lookup(a, name) == lookup(b, name));
            if name == x {
                assert forall|i: int| 0 <= i < s.len() implies (#[trigger] s[i]).0 != x by {
                    assert(text_before(a[0].0, a[i + 1].0));
                    lemma_text_before_total(x, x);
                }
                assert forall|i: int| 0 <= i < t.len() implies (#[trigger] t[i]).0 != x by {
                    assert(text_before(b[0].0, b[i + 1].0));
                    lemma_text_before_total(x, x);
                }
                lemma_lookup_absent(s, x);
                lemma_lookup_absent(t, x);
            }
        }
        assert forall|i: int, j: int| 0 <= i < j < s.len() implies text_before(
            #[trigger] s[i].0,
            #[trigger] s[j].0,
        ) by {
            assert(s[i] == a[i + 1] && s[j] == a[j + 1]);
        }
        assert forall|i: int, j: int| 0 <= i < j < t.len() implies text_before(
            #[trigger] t[i].0,
            #[trigger] t[j].0,
        ) by {
            assert(t[i] == b[i + 1] && t[j] == b[j + 1]);
        }
        law_variables_are_fixed_by_their_values(s, t);
        assert(a =~= seq![a[0]] + s);
        assert(b =~= seq![b[0]] + t);
    } else if a.len() > 0 {
        assert(lookup(a, a[0].0) == lookup(b, a[0].0));
    } else if b.len() > 0 {
        assert(lookup(a, b[0].0) == lookup(b, b[0].0));
    } else {
        assert(a =~= b);
    }
}

/// Texts are ordered by the first character in which they differ, and a text
/// comes before those that go on behind it.
pub proof fn law_order_of_texts(common: Seq<char>, a: char, b: char, x: Seq<char>, y: Seq<char>)
    ensures
        a < b ==> text_before(common + seq![a] + x, common + seq![b] + y),
        a < b ==> !text_before(common + seq![b] + y, common + seq![a] + x),
        text_before(common, common + seq![a] + x),
        !text_before(common, common),
    decreases common.len(),
{
    let s = common + seq![a] + x;
    let t = common + seq![b] + y;
    if common.len() > 0 {
        let rest = common.drop_first();
        law_order_of_texts(rest, a, b, x, y);
        assert(s.drop_first() =~= rest + seq![a] + x);
        assert(t.drop_first() =~= rest + seq![b] + y);
        assert(s[0] == common[0] && t[0] == common[0]);
    } else {
        assert(s[0] == a && t[0] == b);
    }
}

/// Of two different texts one comes before the other, and never both.
pub proof fn law_order_is_total(a: Seq<char>, b: Seq<char>)
    ensures
        a != b ==> (text_before(a, b) <==> !text_before(b, a)),
        !text_before(a, a),
{
    lemma_text_before_total(a, b);
}

/// A variable has a value exactly where a pair has its name, and then that of
/// the first such pair.
pub proof fn law_lookup_finds_the_first(
    pairs: Seq<(Seq<char>, Seq<char>)>,
    name: Seq<char>,
    k: int,
)
    ensures
        lookup(pairs, name) is Some <==> exists|i: int|
            0 <= i < pairs.len() && (#[trigger] pairs[i]).0 == name,
        0 <= k < pairs.len() && pairs[k].0 == name && (forall|i: int|
            0 <= i < k ==> (#[trigger] pairs[i]).0 != name) ==> lookup(pairs, name) == Some(
            pairs[k].1,
        ),
    decreases pairs.len(),
{
    lemma_lookup_present(pairs, name);
    if 0 < k < pairs.len() && pairs[k].0 == name && (forall|i: int|
        0 <= i < k ==> (#[trigger] pairs[i]).0 != name) {
        let rest = pairs.drop_first();
        assert(pairs[0].0 != name);
        assert forall|i: int| 0 <= i < k - 1 implies (#[trigger] rest[i]).0 != name by {
            assert(rest[i] == pairs[i + 1]);
        }
        assert(rest[k - 1] == pairs[k]);
        law_lookup_finds_the_first(rest, name, k - 1);
    }
}

/// The output of a hook is marked with the event that its variables name, and
/// with `hook` where they name none.
pub proof fn law_hook_is_named_by_its_event(
    pairs: Seq<(Seq<char>, Seq<char>)>,
    event: Seq<char>,
)
    ensures
        lookup(pairs, "USQUE_EVENT"@) == Some(event) ==> hook_event(pairs) == event,
        lookup(pairs, "USQUE_EVENT"@) is None ==> hook_event(pairs) == "hook"@,
{
}

/// The name of the variable that tells a program its event.
pub proof fn law_event_variable()
    ensures
        EVENT_VARIABLE@ == "USQUE_EVENT"@,
{
}

/// Pairs are told by their characters: the names first, in their order.
pub proof fn law_pairs_are_told(pairs: Seq<(String, String)>, i: int)
    ensures
        pair_texts(pairs).len() == pairs.len(),
        0 <= i < pairs.len() ==> pair_texts(pairs)[i].0 == pairs[i].0@ && pair_texts(pairs)[i].1
            == pairs[i].1@,
{
}

} // verus!
