//! Colour substitutions read from a query string such as
//! `123456=fffefd&654321=aaaaaa`.

use vstd::prelude::*;

use crate::strings::{byte_len, split_on, split_string, str_equals, utf8_len, views};

verus! {

/// The value stored for `key` in an ordered list of entries: that of the
/// first entry with this key.
pub open spec fn lookup(entries: Seq<(Seq<char>, Seq<char>)>, key: Seq<char>) -> Option<Seq<char>>
    decreases entries.len(),
{
    if entries.len() == 0 {
        None
    } else if entries[0].0 == key {
        Some(entries[0].1)
    } else {
        lookup(entries.drop_first(), key)
    }
}

/// A `key=value` piece is taken when it holds exactly one `=` and both
/// sides are six bytes long.
pub open spec fn sub_accepted(kv: Seq<Seq<char>>) -> bool {
    &&& kv.len() == 2
    &&& utf8_len(kv[0]) == 6
    &&& utf8_len(kv[1]) == 6
}

/// The substitutions given by a list of `&`-separated pieces, read left to
/// right: a piece is taken if it is well formed and its key is not there yet.
pub open spec fn color_subs_from(pairs: Seq<Seq<char>>) -> Seq<(Seq<char>, Seq<char>)>
    decreases pairs.len(),
{
    if pairs.len() == 0 {
        Seq::empty()
    } else {
        let prev = color_subs_from(pairs.drop_last());
        let kv = split_on(pairs.last(), '=');
        if sub_accepted(kv) && lookup(prev, kv[0]) is None {
            prev.push((kv[0], kv[1]))
        } else {
            prev
        }
    }
}

/// The substitutions that a query string describes.
pub open spec fn spec_color_subs(query: Option<Seq<char>>) -> Seq<(Seq<char>, Seq<char>)> {
    match query {
        Some(q) => color_subs_from(split_on(q, '&')),
        None => Seq::empty(),
    }
}

/// No key occurs twice.
pub open spec fn keys_distinct(entries: Seq<(Seq<char>, Seq<char>)>) -> bool {
    forall|i: int, j: int| 0 <= i < j < entries.len() ==> entries[i].0 != entries[j].0
}

proof fn lemma_lookup_none(entries: Seq<(Seq<char>, Seq<char>)>, key: Seq<char>)
    ensures
        lookup(entries, key) is None <==> forall|i: int|
            0 <= i < entries.len() ==> entries[i].0 != key,
    decreases entries.len(),
{
    if entries.len() > 0 {
        lemma_lookup_none(entries.drop_first(), key);
        assert forall|i: int| 1 <= i < entries.len() implies entries[i] == entries.drop_first()[i
            - 1] by {}
    }
}

/// Whatever the query, every substitution maps a six-byte code to a six-byte
/// code, and no code has two substitutions.
pub proof fn lemma_color_subs_well_formed(pairs: Seq<Seq<char>>)
    ensures
        keys_distinct(color_subs_from(pairs)),
        forall|i: int|
            0 <= i < color_subs_from(pairs).len() ==> utf8_len(#[trigger] color_subs_from(
                pairs,
            )[i].0) == 6 && utf8_len(color_subs_from(pairs)[i].1) == 6,
    decreases pairs.len(),
{
    if pairs.len() > 0 {
        lemma_color_subs_well_formed(pairs.drop_last());
        let prev = color_subs_from(pairs.drop_last());
        let kv = split_on(pairs.last(), '=');
        lemma_lookup_none(prev, kv[0]);
    }
}

proof fn lemma_lookup_push(
    entries: Seq<(Seq<char>, Seq<char>)>,
    k: Seq<char>,
    v: Seq<char>,
    key: Seq<char>,
)
    ensures
        lookup(entries.push((k, v)), key) == (if lookup(entries, key) is Some {
            lookup(entries, key)
        } else if k == key {
            Some(v)
        } else {
            None
        }),
    decreases entries.len(),
{
    let e = entries.push((k, v));
    if entries.len() == 0 {
        assert(e.drop_first() =~= Seq::<(Seq<char>, Seq<char>)>::empty());
        assert(e[0] == (k, v));
        assert(lookup(e.drop_first(), key) is None);
        assert(lookup(entries, key) is None);
    } else {
        assert(e[0] == entries[0]);
        assert(e.drop_first() =~= entries.drop_first().push((k, v)));
        lemma_lookup_push(entries.drop_first(), k, v, key);
    }
}

/// Which substitutions a query's `&`-separated pieces give: a piece
/// `key=value` with exactly one `=` and a key and a value of six bytes each
/// maps `key` to `value`, unless an earlier such piece has the same key; a
/// key that no such piece has gets no substitution.
pub proof fn lemma_color_subs_pieces(pairs: Seq<Seq<char>>)
    ensures
        forall|i: int|
            0 <= i < pairs.len() && (#[trigger] split_on(pairs[i], '=')).len() == 2 && utf8_len(
                split_on(pairs[i], '=')[0],
            ) == 6 && utf8_len(split_on(pairs[i], '=')[1]) == 6 && (forall|j: int|
                0 <= j < i ==> !(split_on(pairs[j], '=').len() == 2 && utf8_len(
                    split_on(pairs[j], '=')[0],
                ) == 6 && utf8_len(split_on(pairs[j], '=')[1]) == 6 && split_on(pairs[j], '=')[0]
                    == split_on(pairs[i], '=')[0])) ==> lookup(
                color_subs_from(pairs),
                split_on(pairs[i], '=')[0],
            ) == Some(split_on(pairs[i], '=')[1]),
        forall|key: Seq<char>|
            (forall|j: int|
                0 <= j < pairs.len() ==> !((#[trigger] split_on(pairs[j], '=')).len() == 2
                    && utf8_len(split_on(pairs[j], '=')[0]) == 6 && utf8_len(
                    split_on(pairs[j], '=')[1],
                ) == 6 && split_on(pairs[j], '=')[0] == key)) ==> #[trigger] lookup(
                color_subs_from(pairs),
                key,
            ) is None,
    decreases pairs.len(),
{
    if pairs.len() > 0 {
        let front = pairs.drop_last();
        lemma_color_subs_pieces(front);
        let n = pairs.len() - 1;
        let prev = color_subs_from(front);
        let kv = split_on(pairs.last(), '=');
        assert(pairs[n] == pairs.last());
        assert forall|j: int| 0 <= j < n implies #[trigger] front[j] == pairs[j] by {}
        let res = color_subs_from(pairs);
        let taken = sub_accepted(kv) && lookup(prev, kv[0]) is None;
        assert forall|i: int|
            0 <= i < pairs.len() && (#[trigger] split_on(pairs[i], '=')).len() == 2 && utf8_len(
                split_on(pairs[i], '=')[0],
            ) == 6 && utf8_len(split_on(pairs[i], '=')[1]) == 6 && (forall|j: int|
                0 <= j < i ==> !(split_on(pairs[j], '=').len() == 2 && utf8_len(
                    split_on(pairs[j], '=')[0],
                ) == 6 && utf8_len(split_on(pairs[j], '=')[1]) == 6 && split_on(pairs[j], '=')[0]
                    == split_on(pairs[i], '=')[0])) implies lookup(res, split_on(pairs[i], '=')[0])
            == Some(split_on(pairs[i], '=')[1]) by {
            let ki = split_on(pairs[i], '=')[0];
            let vi = split_on(pairs[i], '=')[1];
            if i < n {
                assert(front[i] == pairs[i]);
                assert(split_on(front[i], '=') == split_on(pairs[i], '='));
                assert forall|j: int|
                    0 <= j < i implies !((#[trigger] split_on(front[j], '=')).len() == 2
                        && utf8_len(split_on(front[j], '=')[0]) == 6 && utf8_len(
                        split_on(front[j], '=')[1],
                    ) == 6 && split_on(front[j], '=')[0] == split_on(front[i], '=')[0]) by {
                    assert(front[j] == pairs[j]);
                    assert(split_on(pairs[j], '=') == split_on(pairs[j], '='));
                }
                assert(lookup(prev, ki) == Some(vi));
                if taken {
                    lemma_lookup_push(prev, kv[0], kv[1], ki);
                }
            } else {
                assert(i == n);
                assert forall|j: int|
                    0 <= j < front.len() implies !((#[trigger] split_on(front[j], '=')).len() == 2
                        && utf8_len(split_on(front[j], '=')[0]) == 6 && utf8_len(
                        split_on(front[j], '=')[1],
                    ) == 6 && split_on(front[j], '=')[0] == kv[0]) by {
                    assert(front[j] == pairs[j]);
                    assert(split_on(pairs[j], '=') == split_on(pairs[j], '='));
                }
                assert(lookup(prev, kv[0]) is None);
                lemma_lookup_push(prev, kv[0], kv[1], ki);
            }
        }
        assert forall|key: Seq<char>|
            (forall|j: int|
                0 <= j < pairs.len() ==> !((#[trigger] split_on(pairs[j], '=')).len() == 2
                    && utf8_len(split_on(pairs[j], '=')[0]) == 6 && utf8_len(
                    split_on(pairs[j], '=')[1],
                ) == 6 && split_on(pairs[j], '=')[0] == key)) implies #[trigger] lookup(res, key) is None by {
            assert forall|j: int|
                0 <= j < front.len() implies !((#[trigger] split_on(front[j], '=')).len() == 2
                    && utf8_len(split_on(front[j], '=')[0]) == 6 && utf8_len(
                    split_on(front[j], '=')[1],
                ) == 6 && split_on(front[j], '=')[0] == key) by {
                assert(front[j] == pairs[j]);
                assert(split_on(pairs[j], '=') == split_on(pairs[j], '='));
            }
            assert(lookup(prev, key) is None);
            assert(split_on(pairs[n], '=') == kv);
            if taken {
                lemma_lookup_push(prev, kv[0], kv[1], key);
            }
        }
    }
}

/// A map from six-byte colour codes to six-byte replacement codes; each key
/// occurs once, in the order in which it was first given.
pub struct ColorSubs {
    entries: Vec<(String, String)>,
}

impl View for ColorSubs {
    type V = Seq<(Seq<char>, Seq<char>)>;

    closed spec fn view(&self) -> Seq<(Seq<char>, Seq<char>)> {
        self.entries@.map_values(|e: (String, String)| (e.0@, e.1@))
    }
}

impl ColorSubs {
    /// No substitutions.
    pub fn new() -> (s: Self)
        ensures
            s@ == Seq::<(Seq<char>, Seq<char>)>::empty(),
    {
        let s = ColorSubs { entries: Vec::new() };
        assert(s@ =~= Seq::<(Seq<char>, Seq<char>)>::empty());
        s
    }

    /// The number of substitutions.
    pub fn len(&self) -> (n: usize)
        ensures
            n == self@.len(),
    {
        self.entries.len()
    }

    fn index_of(&self, key: &str) -> (r: Option<usize>)
        ensures
            match r {
                Some(i) => i < self@.len() && self@[i as int].0 == key@ && lookup(self@, key@)
                    == Some(self@[i as int].1),
                None => lookup(self@, key@) is None,
            },
    {
        let n = self.entries.len();
        let mut i: usize = 0;
        assert(self@.skip(0) =~= self@);
        while i < n
            invariant
                n == self@.len(),
                i <= n,
                lookup(self@, key@) == lookup(self@.skip(i as int), key@),
            decreases n - i,
        {
            let ghost rest = self@.skip(i as int);
            assert(rest[0] == self@[i as int]);
            assert(rest.drop_first() =~= self@.skip(i + 1));
            if str_equals(self.entries[i].0.as_str(), key) {
                return Some(i);
            }
            i = i + 1;
        }
        assert(self@.skip(n as int) =~= Seq::<(Seq<char>, Seq<char>)>::empty());
        None
    }

    /// Whether `key` has a substitution.
    pub fn contains_key(&self, key: &str) -> (b: bool)
        ensures
            b == (lookup(self@, key@) is Some),
    {
        self.index_of(key).is_some()
    }

    /// The substitution for `key`, if there is one.
    pub fn get(&self, key: &str) -> (r: Option<&String>)
        ensures
            match r {
                Some(v) => lookup(self@, key@) == Some(v@),
                None => lookup(self@, key@) is None,
            },
    {
        match self.index_of(key) {
            Some(i) => Some(&self.entries[i].1),
            None => None,
        }
    }

    /// Reads the substitutions of a query string.
    pub fn from_query(search: &String) -> (s: Self)
        ensures
            s@ == color_subs_from(split_on(search@, '&')),
    {
        let pairs = split_string(search.as_str(), '&');
        let mut ret = ColorSubs::new();
        let n = pairs.len();
        let mut i: usize = 0;
        while i < n
            invariant
                n == pairs@.len(),
                i <= n,
                ret@ == color_subs_from(views(pairs@).take(i as int)),
            decreases n - i,
        {
            let ghost taken = views(pairs@).take(i + 1);
            assert(taken.drop_last() =~= views(pairs@).take(i as int));
            assert(taken.last() == pairs@[i as int]@);
            let kv = split_string(pairs[i].as_str(), '=');
            if kv.len() == 2 && byte_len(&kv[0]) == 6 && byte_len(&kv[1]) == 6 {
                assert(views(kv@)[0] == kv@[0]@);
                assert(views(kv@)[1] == kv@[1]@);
                if !ret.contains_key(kv[0].as_str()) {
                    let ghost old_ret = ret@;
                    let entry = (kv[0].clone(), kv[1].clone());
                    ret.entries.push(entry);
                    assert(ret@ =~= old_ret.push((kv@[0]@, kv@[1]@)));
                }
            }
            i = i + 1;
        }
        assert(views(pairs@).take(n as int) =~= views(pairs@));
        ret
    }
}

} // verus!
