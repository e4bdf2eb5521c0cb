use vstd::prelude::*;

verus! {

/// Characters with the Unicode `White_Space` property, the set that
/// `char::is_whitespace` and `str::split_whitespace` go by.
pub open spec fn is_ws(c: char) -> bool {
    let u = c as u32;
    (0x09 <= u && u <= 0x0d) || u == 0x20 || u == 0x85 || u == 0xa0 || u == 0x1680 || (0x2000
        <= u && u <= 0x200a) || u == 0x2028 || u == 0x2029 || u == 0x202f || u == 0x205f || u
        == 0x3000
}

/// Scans `s` left to right: non-whitespace characters are copied, and a run of
/// whitespace that separates two of them becomes one `'_'`. The flag says
/// whether a separator is owed before the next copied character.
pub open spec fn ws_scan(s: Seq<char>) -> (Seq<char>, bool)
    decreases s.len(),
{
    if s.len() == 0 {
        (Seq::<char>::empty(), false)
    } else {
        let (out, pending) = ws_scan(s.drop_last());
        let c = s.last();
        if is_ws(c) {
            (out, out.len() > 0)
        } else if pending {
            (out.push('_').push(c), false)
        } else {
            (out.push(c), false)
        }
    }
}

/// The words of `s` (maximal runs without whitespace), joined by single `'_'`.
pub open spec fn ws_normalized(s: Seq<char>) -> Seq<char> {
    ws_scan(s).0
}

/// Tells whether `c` is whitespace in the sense of `is_ws`.
pub fn is_whitespace_char(c: char) -> (r: bool)
    ensures
        r == is_ws(c),
{
    let u = c as u32;
    (0x09 <= u && u <= 0x0d) || u == 0x20 || u == 0x85 || u == 0xa0 || u == 0x1680 || (0x2000
        <= u && u <= 0x200a) || u == 0x2028 || u == 0x2029 || u == 0x202f || u == 0x205f || u
        == 0x3000
}

/// Collapses each whitespace run of `s` into one `'_'` and drops the runs at
/// both ends.
pub fn ws_normalize(s: &str) -> (r: String)
    ensures
        r@ == ws_normalized(s@),
{
    let n = s.unicode_len();
    let mut out = String::new();
    let mut pending = false;
    let mut i: usize = 0;
    while i < n
        invariant
            n == s@.len(),
            i <= n,
            (out@, pending) == ws_scan(s@.subrange(0, i as int)),
        decreases n - i,
    {
        let c = s.get_char(i);
        let ghost t = s@.subrange(0, i as int + 1);
        proof {
            assert(t.drop_last() =~= s@.subrange(0, i as int));
            assert(t.last() == c);
            assert(ws_scan(t) == {
                let (o, p) = ws_scan(t.drop_last());
                if is_ws(c) {
                    (o, o.len() > 0)
                } else if p {
                    (o.push('_').push(c), false)
                } else {
                    (o.push(c), false)
                }
            });
        }
        if is_whitespace_char(c) {
            pending = out.unicode_len() > 0;
        } else {
            if pending {
                proof {
                    reveal_strlit("_");
                }
                out.append("_");
                pending = false;
            }
            out.append(s.substring_char(i, i + 1));
            proof {
                assert(s@.subrange(i as int, i as int + 1) =~= seq![c]);
            }
        }
        proof {
            assert(out@ =~= ws_scan(t).0);
        }
        i += 1;
    }
    proof {
        assert(s@.subrange(0, n as int) =~= s@);
    }
    out
}

/// `s` without its leading whitespace.
pub open spec fn trim_start_ws(s: Seq<char>) -> Seq<char>
    decreases s.len(),
{
    if s.len() > 0 && is_ws(s[0]) {
        trim_start_ws(s.drop_first())
    } else {
        s
    }
}

/// `s` without its trailing whitespace.
pub open spec fn trim_end_ws(s: Seq<char>) -> Seq<char>
    decreases s.len(),
{
    if s.len() > 0 && is_ws(s.last()) {
        trim_end_ws(s.drop_last())
    } else {
        s
    }
}

/// `s` without leading and trailing whitespace, as `str::trim` gives it.
pub open spec fn trimmed(s: Seq<char>) -> Seq<char> {
    trim_end_ws(trim_start_ws(s))
}

proof fn lemma_trim_start(s: Seq<char>, a: int)
    requires
        0 <= a <= s.len(),
        forall|k: int| 0 <= k < a ==> is_ws(#[trigger] s[k]),
        a == s.len() || !is_ws(s[a]),
    ensures
        trim_start_ws(s) == s.subrange(a, s.len() as int),
    decreases a,
{
    if a == 0 {
        assert(s.subrange(0, s.len() as int) =~= s);
    } else {
        let t = s.drop_first();
        assert forall|k: int| 0 <= k < a - 1 implies is_ws(#[trigger] t[k]) by {
            assert(t[k] == s[k + 1]);
        }
        lemma_trim_start(t, a - 1);
        assert(t.subrange(a - 1, t.len() as int) =~= s.subrange(a, s.len() as int));
    }
}

proof fn lemma_trim_end(s: Seq<char>, b: int)
    requires
        0 <= b <= s.len(),
        forall|k: int| b <= k < s.len() ==> is_ws(#[trigger] s[k]),
        b == 0 || !is_ws(s[b - 1]),
    ensures
        trim_end_ws(s) == s.subrange(0, b),
    decreases s.len() - b,
{
    if b == s.len() {
        assert(s.subrange(0, b) =~= s);
    } else {
        let t = s.drop_last();
        lemma_trim_end(t, b);
        assert(t.subrange(0, b) =~= s.subrange(0, b));
    }
}

/// `s` without leading and trailing whitespace.
pub fn trim_ws(s: &str) -> (r: &str)
    ensures
        r@ == trimmed(s@),
{
    let n = s.unicode_len();
    let mut a: usize = 0;
    while a < n && is_whitespace_char(s.get_char(a))
        invariant
            n == s@.len(),
            a <= n,
            forall|k: int| 0 <= k < a ==> is_ws(#[trigger] s@[k]),
        decreases n - a,
    {
        a += 1;
    }
    let mut b: usize = n;
    while b > a && is_whitespace_char(s.get_char(b - 1))
        invariant
            n == s@.len(),
            a <= b <= n,
            forall|k: int| b <= k < n ==> is_ws(#[trigger] s@[k]),
        decreases b,
    {
        b -= 1;
    }
    proof {
        lemma_trim_start(s@, a as int);
        let t = s@.subrange(a as int, n as int);
        assert forall|k: int| b - a <= k < t.len() implies is_ws(#[trigger] t[k]) by {
            assert(t[k] == s@[k + a]);
        }
        if b > a {
            assert(t[b - a - 1] == s@[b - 1]);
        }
        lemma_trim_end(t, b - a);
        assert(t.subrange(0, b - a) =~= s@.subrange(a as int, b as int));
    }
    s.substring_char(a, b)
}

/// The words of `s`: its maximal runs of non-whitespace characters, in order.
/// Seen from the end, a non-whitespace character either extends the last word
/// (when the character before it is not whitespace) or starts a new one.
pub open spec fn words(s: Seq<char>) -> Seq<Seq<char>>
    decreases s.len(),
{
    if s.len() == 0 {
        Seq::<Seq<char>>::empty()
    } else {
        let w = words(s.drop_last());
        let c = s.last();
        if is_ws(c) {
            w
        } else if s.len() >= 2 && !is_ws(s[s.len() - 2]) && w.len() > 0 {
            w.update(w.len() - 1, w.last().push(c))
        } else {
            w.push(seq![c])
        }
    }
}

/// The words `ws`, with one `'_'` between each two.
pub open spec fn join_underscore(ws: Seq<Seq<char>>) -> Seq<char>
    decreases ws.len(),
{
    if ws.len() == 0 {
        Seq::<char>::empty()
    } else if ws.len() == 1 {
        ws[0]
    } else {
        join_underscore(ws.drop_last()).push('_') + ws.last()
    }
}

proof fn lemma_join_nonempty(ws: Seq<Seq<char>>)
    requires
        ws.len() > 0,
        ws.last().len() > 0,
    ensures
        join_underscore(ws).len() > 0,
{
}

proof fn lemma_join_extend_last(ws: Seq<Seq<char>>, c: char)
    requires
        ws.len() > 0,
    ensures
        join_underscore(ws.update(ws.len() - 1, ws.last().push(c))) == join_underscore(ws).push(c),
{
    let u = ws.update(ws.len() - 1, ws.last().push(c));
    if ws.len() > 1 {
        assert(u.drop_last() =~= ws.drop_last());
        assert(join_underscore(ws.drop_last()).push('_') + ws.last().push(c)
            =~= (join_underscore(ws.drop_last()).push('_') + ws.last()).push(c));
    }
}

proof fn lemma_scan_is_joined_words(s: Seq<char>)
    ensures
        ws_scan(s).0 == join_underscore(words(s)),
        ws_scan(s).1 == (s.len() > 0 && is_ws(s.last()) && words(s).len() > 0),
        s.len() > 0 && !is_ws(s.last()) ==> words(s).len() > 0,
        forall|i: int| 0 <= i < words(s).len() ==> (#[trigger] words(s)[i]).len() > 0,
        forall|i: int, j: int|
            0 <= i < words(s).len() && 0 <= j < words(s)[i].len() ==> !is_ws(
                #[trigger] words(s)[i][j],
            ),
    decreases s.len(),
{
    if s.len() > 0 {
        let p = s.drop_last();
        lemma_scan_is_joined_words(p);
        let w = words(p);
        let c = s.last();
        if w.len() > 0 {
            lemma_join_nonempty(w);
        }
        if !is_ws(c) {
            if s.len() >= 2 && !is_ws(s[s.len() - 2]) && w.len() > 0 {
                assert(p.last() == s[s.len() - 2]);
                lemma_join_extend_last(w, c);
                let u = w.update(w.len() - 1, w.last().push(c));
                assert forall|i: int| 0 <= i < u.len() implies (#[trigger] u[i]).len() > 0 by {
                    if i < w.len() - 1 {
                        assert(u[i] == w[i]);
                    }
                }
                assert forall|i: int, j: int| 0 <= i < u.len() && 0 <= j < u[i].len() implies !is_ws(
                    #[trigger] u[i][j],
                ) by {
                    if i < w.len() - 1 {
                        assert(u[i] == w[i]);
                    } else if j < w.last().len() {
                        assert(u[i][j] == w[i][j]);
                    }
                }
            } else {
                if p.len() > 0 {
                    assert(p.last() == s[s.len() - 2]);
                }
                let u = w.push(seq![c]);
                assert(u.drop_last() =~= w);
                if w.len() == 0 {
                    assert(ws_scan(s).0 =~= seq![c]);
                } else {
                    assert(ws_scan(s).0 =~= join_underscore(w).push('_') + seq![c]);
                }
                assert forall|i: int| 0 <= i < u.len() implies (#[trigger] u[i]).len() > 0 by {
                    if i < w.len() {
                        assert(u[i] == w[i]);
                    }
                }
                assert forall|i: int, j: int| 0 <= i < u.len() && 0 <= j < u[i].len() implies !is_ws(
                    #[trigger] u[i][j],
                ) by {
                    if i < w.len() {
                        assert(u[i] == w[i]);
                    }
                }
            }
        }
    }
}

/// Normalizing a string gives its words, each free of whitespace and none
/// empty, joined by single `'_'`.
pub proof fn ws_normalized_is_joined_words(s: Seq<char>)
    ensures
        ws_normalized(s) == join_underscore(words(s)),
        forall|i: int| 0 <= i < words(s).len() ==> (#[trigger] words(s)[i]).len() > 0,
        forall|i: int, j: int|
            0 <= i < words(s).len() && 0 <= j < words(s)[i].len() ==> !is_ws(
                #[trigger] words(s)[i][j],
            ),
{
    lemma_scan_is_joined_words(s);
}

/// The pieces of `r` between its `'_'`s, as `str::split('_')` gives them:
/// always at least one, and an empty `r` gives one empty piece.
pub open spec fn split_underscore(r: Seq<char>) -> Seq<Seq<char>>
    decreases r.len(),
{
    if r.len() == 0 {
        seq![Seq::<char>::empty()]
    } else {
        let p = split_underscore(r.drop_last());
        if r.last() == '_' {
            p.push(Seq::<char>::empty())
        } else {
            p.update(p.len() - 1, p.last().push(r.last()))
        }
    }
}

proof fn lemma_split_nonempty(r: Seq<char>)
    ensures
        split_underscore(r).len() >= 1,
    decreases r.len(),
{
    if r.len() > 0 {
        lemma_split_nonempty(r.drop_last());
    }
}

proof fn lemma_split_after_sep(a: Seq<char>, w: Seq<char>)
    requires
        forall|j: int| 0 <= j < w.len() ==> w[j] != '_',
    ensures
        split_underscore(a.push('_') + w) == split_underscore(a).push(w),
    decreases w.len(),
{
    if w.len() == 0 {
        assert(a.push('_') + w =~= a.push('_'));
        assert(a.push('_').drop_last() =~= a);
        assert(w =~= Seq::<char>::empty());
    } else {
        let v = w.drop_last();
        assert forall|j: int| 0 <= j < v.len() implies v[j] != '_' by {
            assert(v[j] == w[j]);
        }
        lemma_split_after_sep(a, v);
        let x = a.push('_') + w;
        assert(x.drop_last() =~= a.push('_') + v);
        assert(x.last() == w.last());
        assert(w.last() == w[w.len() - 1]);
        assert(v.push(w.last()) =~= w);
        let q = split_underscore(a).push(v);
        assert(q.len() - 1 == split_underscore(a).len() && q.last() == v);
        assert(w.last() != '_');
        assert(split_underscore(x) == q.update(q.len() - 1, v.push(w.last())));
        assert(q.update(q.len() - 1, v.push(w.last())) =~= split_underscore(a).push(w));
    }
}

proof fn lemma_split_plain(w: Seq<char>)
    requires
        forall|j: int| 0 <= j < w.len() ==> w[j] != '_',
    ensures
        split_underscore(w) == seq![w],
    decreases w.len(),
{
    if w.len() > 0 {
        let v = w.drop_last();
        assert forall|j: int| 0 <= j < v.len() implies v[j] != '_' by {
            assert(v[j] == w[j]);
        }
        lemma_split_plain(v);
        assert(w.last() == w[w.len() - 1]);
        assert(v.push(w.last()) =~= w);
        let p = split_underscore(v);
        assert(p.len() == 1 && p.last() == v);
        assert(w.last() != '_');
        assert(split_underscore(w) == p.update(0, v.push(w.last())));
        assert(p.update(0, v.push(w.last())) =~= seq![w]);
    } else {
        assert(w =~= Seq::<char>::empty());
    }
}

proof fn lemma_split_join(ws: Seq<Seq<char>>)
    requires
        ws.len() >= 1,
        forall|i: int, j: int| 0 <= i < ws.len() && 0 <= j < ws[i].len() ==> #[trigger] ws[i][j] != '_',
    ensures
        split_underscore(join_underscore(ws)) == ws,
    decreases ws.len(),
{
    if ws.len() == 1 {
        lemma_split_plain(ws[0]);
        assert(seq![ws[0]] =~= ws);
    } else {
        let p = ws.drop_last();
        assert forall|i: int, j: int| 0 <= i < p.len() && 0 <= j < p[i].len() implies #[trigger] p[i][j] != '_' by {
            assert(p[i] == ws[i]);
        }
        lemma_split_join(p);
        assert forall|j: int| 0 <= j < ws.last().len() implies ws.last()[j] != '_' by {
            assert(ws.last()[j] == ws[ws.len() - 1][j]);
        }
        lemma_split_after_sep(join_underscore(p), ws.last());
        assert(p.push(ws.last()) =~= ws);
    }
}

proof fn lemma_words_avoid(s: Seq<char>, x: char)
    requires
        forall|k: int| 0 <= k < s.len() ==> s[k] != x,
    ensures
        forall|i: int, j: int|
            0 <= i < words(s).len() && 0 <= j < words(s)[i].len() ==> #[trigger] words(s)[i][j] != x,
    decreases s.len(),
{
    if s.len() > 0 {
        let p = s.drop_last();
        assert forall|k: int| 0 <= k < p.len() implies p[k] != x by {
            assert(p[k] == s[k]);
        }
        lemma_words_avoid(p, x);
        let w = words(p);
        let c = s.last();
        assert(c == s[s.len() - 1]);
        if !is_ws(c) {
            if s.len() >= 2 && !is_ws(s[s.len() - 2]) && w.len() > 0 {
                let u = w.update(w.len() - 1, w.last().push(c));
                assert forall|i: int, j: int| 0 <= i < u.len() && 0 <= j < u[i].len() implies #[trigger] u[i][j] != x by {
                    if i < w.len() - 1 {
                        assert(u[i] == w[i]);
                    } else if j < w.last().len() {
                        assert(u[i][j] == w[i][j]);
                    }
                }
            } else {
                let u = w.push(seq![c]);
                assert forall|i: int, j: int| 0 <= i < u.len() && 0 <= j < u[i].len() implies #[trigger] u[i][j] != x by {
                    if i < w.len() {
                        assert(u[i] == w[i]);
                    }
                }
            }
        }
    }
}

/// Where the input holds no `'_'` and at least one word, splitting its
/// normalization on `'_'` gives back exactly its words.
pub proof fn ws_normalized_splits_into_words(s: Seq<char>)
    requires
        forall|k: int| 0 <= k < s.len() ==> s[k] != '_',
        words(s).len() > 0,
    ensures
        split_underscore(ws_normalized(s)) == words(s),
{
    lemma_scan_is_joined_words(s);
    lemma_words_avoid(s, '_');
    lemma_split_join(words(s));
}

/// The whitespace normalization of names. Empty input gives empty output;
/// the output holds no whitespace; and where the input holds no `'_'`, the
/// output neither starts nor ends with `'_'` and never holds two in a row, so
/// its `'_'`s are exactly the separators between the words.
pub proof fn ws_normalized_shape(s: Seq<char>)
    ensures
        s.len() == 0 ==> ws_normalized(s).len() == 0,
        forall|i: int| 0 <= i < ws_normalized(s).len() ==> !is_ws(#[trigger] ws_normalized(s)[i]),
        (forall|i: int| 0 <= i < s.len() ==> s[i] != '_') ==> {
            let r = ws_normalized(s);
            &&& r.len() > 0 ==> r[0] != '_' && r.last() != '_'
            &&& forall|i: int| 0 <= i < r.len() - 1 ==> !(#[trigger] r[i] == '_' && r[i + 1] == '_')
        },
{
    lemma_ws_scan(s);
}

proof fn lemma_ws_scan(s: Seq<char>)
    ensures
        ws_scan(s).1 ==> ws_scan(s).0.len() > 0,
        forall|i: int| 0 <= i < ws_scan(s).0.len() ==> !is_ws(#[trigger] ws_scan(s).0[i]),
        (forall|i: int| 0 <= i < s.len() ==> s[i] != '_') ==> {
            let r = ws_scan(s).0;
            &&& r.len() > 0 ==> r[0] != '_' && r.last() != '_'
            &&& forall|i: int| 0 <= i < r.len() - 1 ==> !(#[trigger] r[i] == '_' && r[i + 1] == '_')
        },
    decreases s.len(),
{
    if s.len() > 0 {
        let p = s.drop_last();
        lemma_ws_scan(p);
        if forall|i: int| 0 <= i < s.len() ==> s[i] != '_' {
            assert forall|i: int| 0 <= i < p.len() implies p[i] != '_' by {
                assert(p[i] == s[i]);
            }
            assert(s[s.len() - 1] != '_');
        }
        assert(!is_ws('_'));
    }
}

/// Whitespace normalization of names: every whitespace run becomes one `'_'`,
/// and leading and trailing whitespace is dropped.
pub trait ConvertWhiteSpace: Sized + View<V = Seq<char>> {
    fn ws_convert(self) -> (r: String)
        ensures
            r@ == ws_normalized(self@),
    ;
}

impl<'a> ConvertWhiteSpace for &'a str {
    fn ws_convert(self) -> (r: String) {
        ws_normalize(self)
    }
}

impl ConvertWhiteSpace for String {
    fn ws_convert(self) -> (r: String) {
        ws_normalize(self.as_str())
    }
}

} // verus!
