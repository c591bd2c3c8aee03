//! Lossless compression of rectangular grids.
//!
//! A grid is a sequence of rows of equal length. Its compressed form drops,
//! in every row, the trailing cells that repeat the cell before them, and
//! then drops the trailing rows that repeat the row before them. A grid that
//! holds no cell (no row, or rows of length zero) compresses to no row at
//! all. Expansion repeats the last cell of each row up to the width and the
//! last row up to the height.
use vstd::prelude::*;

verus! {

/// A grid cell: a plain value that can be copied and compared.
pub trait Cell: Copy {
    fn same(&self, other: &Self) -> (r: bool)
        ensures
            r == (*self == *other),
    ;
}

impl Cell for u8 {
    fn same(&self, other: &Self) -> (r: bool) {
        *self == *other
    }
}

impl Cell for u16 {
    fn same(&self, other: &Self) -> (r: bool) {
        *self == *other
    }
}

/// The rows of a grid of vectors, as sequences.
pub open spec fn cells<T>(g: Seq<Vec<T>>) -> Seq<Seq<T>> {
    g.map_values(|r: Vec<T>| r@)
}

/// `s` without the trailing items that repeat the item before them.
pub open spec fn trim_tail<A>(s: Seq<A>) -> Seq<A>
    decreases s.len(),
{
    if s.len() >= 2 && s[s.len() - 1] == s[s.len() - 2] {
        trim_tail(s.drop_last())
    } else {
        s
    }
}

/// `r` extended to length `n` by repeating its last item, or cut to `n`.
pub open spec fn pad<A>(r: Seq<A>, n: nat) -> Seq<A> {
    Seq::new(n, |j: int| if j < r.len() { r[j] } else { r.last() })
}

/// The compressed form of grid `g`.
pub open spec fn compressed<A>(g: Seq<Seq<A>>) -> Seq<Seq<A>> {
    if g.len() == 0 || g[0].len() == 0 {
        Seq::empty()
    } else {
        trim_tail(g.map_values(|r: Seq<A>| trim_tail(r)))
    }
}

/// Whether `c` is a compressed form that can stand for a grid of `h` rows
/// of `w` cells.
pub open spec fn expand_ok<A>(c: Seq<Seq<A>>, h: nat, w: nat) -> bool {
    if c.len() == 0 {
        h == 0 || w == 0
    } else {
        &&& 0 < w
        &&& c.len() <= h
        &&& forall|i: int| 0 <= i < c.len() ==> 1 <= #[trigger] c[i].len() <= w
    }
}

/// The grid of `h` rows of `w` cells that the compressed form `c` stands for.
pub open spec fn expanded<A>(c: Seq<Seq<A>>, h: nat, w: nat) -> Seq<Seq<A>> {
    if c.len() == 0 {
        Seq::new(h, |i: int| Seq::<A>::empty())
    } else {
        pad(c.map_values(|r: Seq<A>| pad(r, w)), h)
    }
}

/// Whether every row of `g` has `w` cells.
pub open spec fn is_rect<A>(g: Seq<Seq<A>>, w: nat) -> bool {
    forall|i: int| 0 <= i < g.len() ==> (#[trigger] g[i]).len() == w
}

/// The rows of width `w` that make up the first `h * w` items of `d`.
pub open spec fn chunk<A>(d: Seq<A>, w: nat, h: nat) -> Seq<Seq<A>> {
    Seq::new(h, |i: int| d.subrange(i * w, i * w + w))
}

proof fn lemma_trim_tail<A>(s: Seq<A>)
    ensures
        trim_tail(s).len() <= s.len(),
        s.len() >= 1 ==> trim_tail(s).len() >= 1,
        trim_tail(s) == s.take(trim_tail(s).len() as int),
        pad(trim_tail(s), s.len()) == s,
    decreases s.len(),
{
    let t = trim_tail(s);
    if s.len() >= 2 && s[s.len() - 1] == s[s.len() - 2] {
        let d = s.drop_last();
        lemma_trim_tail(d);
        assert(t == trim_tail(d));
        assert(d.take(t.len() as int) =~= s.take(t.len() as int));
        assert forall|j: int| 0 <= j < s.len() implies #[trigger] pad(t, s.len())[j] == s[j] by {
            if j < d.len() {
                assert(pad(t, d.len())[j] == d[j]);
            } else {
                assert(pad(t, d.len())[d.len() - 1] == d[d.len() - 1]);
            }
        }
        assert(pad(t, s.len()) =~= s);
    } else {
        assert(s.take(s.len() as int) =~= s);
        assert(pad(s, s.len()) =~= s);
    }
}

/// Expanding the compressed form of a grid of `h` rows of `w` cells, with
/// that height and width, gives the grid back; the empty grid included.
pub proof fn lemma_codec_round_trip<A>(g: Seq<Seq<A>>, h: nat, w: nat)
    requires
        g.len() == h,
        is_rect(g, w),
    ensures
        expand_ok(compressed(g), h, w),
        expanded(compressed(g), h, w) == g,
{
    let c = compressed(g);
    if g.len() == 0 || g[0].len() == 0 {
        assert forall|i: int| 0 <= i < h implies #[trigger] expanded(c, h, w)[i] == g[i] by {
            assert(g[i].len() == w);
            assert(g[i] =~= Seq::<A>::empty());
        }
        assert(expanded(c, h, w) =~= g);
    } else {
        let t = g.map_values(|r: Seq<A>| trim_tail(r));
        lemma_trim_tail(t);
        assert forall|i: int| 0 <= i < g.len() implies pad(#[trigger] t[i], w) == g[i] && 1 <= t[i].len()
            <= w by {
            lemma_trim_tail(g[i]);
        }
        assert forall|i: int| 0 <= i < c.len() implies 1 <= #[trigger] c[i].len() <= w by {
            assert(c[i] == t[i]);
        }
        let p = c.map_values(|r: Seq<A>| pad(r, w));
        assert forall|i: int| 0 <= i < h implies #[trigger] expanded(c, h, w)[i] == g[i] by {
            assert(pad(c, h)[i] == t[i]);
            if i < c.len() {
                assert(pad(p, h)[i] == p[i]);
            } else {
                assert(pad(p, h)[i] == p[c.len() - 1]);
                assert(c[c.len() - 1] == c.last());
            }
        }
        assert(expanded(c, h, w) =~= g);
    }
}

/// An expanded grid has `h` rows of `w` cells.
pub proof fn lemma_expanded_rect<A>(c: Seq<Seq<A>>, h: nat, w: nat)
    requires
        expand_ok(c, h, w),
    ensures
        expanded(c, h, w).len() == h,
        is_rect(expanded(c, h, w), w),
{
}

/// Cutting `h * w` items into rows of `w` gives `h` full rows.
pub proof fn lemma_chunk_rect<A>(d: Seq<A>, w: nat, h: nat)
    requires
        d.len() == w * h,
    ensures
        chunk(d, w, h).len() == h,
        is_rect(chunk(d, w, h), w),
{
    assert forall|i: int| 0 <= i < h implies (#[trigger] chunk(d, w, h)[i]).len() == w by {
        assert(i * w + w <= w * h) by (nonlinear_arith)
            requires
                0 <= i < h,
        ;
        assert(0 <= i * w) by (nonlinear_arith)
            requires
                0 <= i,
        ;
    }
}

/// Cutting `d` into rows is one-to-one on sequences of `h * w` items.
pub proof fn lemma_chunk_injective<A>(d1: Seq<A>, d2: Seq<A>, w: nat, h: nat)
    requires
        d1.len() == w * h,
        d2.len() == w * h,
        chunk(d1, w, h) == chunk(d2, w, h),
    ensures
        d1 == d2,
{
    assert forall|k: int| 0 <= k < d1.len() implies d1[k] == d2[k] by {
        let i = k / (w as int);
        let j = k % (w as int);
        assert(w > 0) by (nonlinear_arith)
            requires
                0 <= k < w * h,
        ;
        vstd::arithmetic::div_mod::lemma_fundamental_div_mod(k, w as int);
        vstd::arithmetic::div_mod::lemma_mod_bound(k, w as int);
        assert(i < h && 0 <= i) by (nonlinear_arith)
            requires
                k == w * i + j,
                0 <= j < w,
                0 <= k < w * h,
        ;
        assert(i * w + w <= w * h) by (nonlinear_arith)
            requires
                0 <= i < h,
        ;
        assert(0 <= i * w) by (nonlinear_arith)
            requires
                0 <= i,
        ;
        assert(chunk(d1, w, h)[i] == chunk(d2, w, h)[i]);
        assert(chunk(d1, w, h)[i][j] == d1[i * w + j]);
        assert(chunk(d2, w, h)[i][j] == d2[i * w + j]);
        assert(i * w + j == k) by (nonlinear_arith)
            requires
                k == w * i + j,
        ;
    }
    assert(d1 =~= d2);
}

/// Appending a row of `w` items to `i` full rows gives `i + 1` full rows.
pub proof fn lemma_chunk_push<A>(d: Seq<A>, r: Seq<A>, w: nat, i: nat)
    requires
        d.len() == i * w,
        r.len() == w,
    ensures
        (d + r).len() == (i + 1) * w,
        chunk(d + r, w, i + 1) == chunk(d, w, i).push(r),
{
    assert((i + 1) * w == i * w + w) by (nonlinear_arith);
    let e = d + r;
    assert forall|ii: int| 0 <= ii < i + 1 implies #[trigger] chunk(e, w, i + 1)[ii] == chunk(
        d,
        w,
        i,
    ).push(r)[ii] by {
        if ii < i {
            assert(ii * w + w <= i * w) by (nonlinear_arith)
                requires
                    ii < i,
            ;
            assert(0 <= ii * w) by (nonlinear_arith)
                requires
                    0 <= ii,
            ;
            assert(e.subrange(ii * w, ii * w + w) =~= d.subrange(ii * w, ii * w + w));
        } else {
            assert(e.subrange(ii * w, ii * w + w) =~= r);
        }
    }
    assert(chunk(e, w, i + 1) =~= chunk(d, w, i).push(r));
}

/// The length of `trim_tail(r@)`.
fn trimmed_len<T: Cell>(r: &Vec<T>) -> (k: usize)
    ensures
        k <= r.len(),
        r@.take(k as int) == trim_tail(r@),
{
    let mut k: usize = r.len();
    assert(r@.take(k as int) =~= r@);
    while k >= 2 && r[k - 1].same(&r[k - 2])
        invariant
            k <= r.len(),
            trim_tail(r@.take(k as int)) == trim_tail(r@),
        decreases k,
    {
        assert(r@.take(k as int).drop_last() =~= r@.take(k - 1));
        k = k - 1;
    }
    k
}

/// Whether two rows hold the same cells.
fn rows_equal<T: Cell>(a: &Vec<T>, b: &Vec<T>) -> (r: bool)
    ensures
        r == (a@ == b@),
{
    if a.len() != b.len() {
        return false;
    }
    let mut j: usize = 0;
    while j < a.len()
        invariant
            a.len() == b.len(),
            j <= a.len(),
            forall|k: int| 0 <= k < j ==> a@[k] == b@[k],
        decreases a.len() - j,
    {
        if !a[j].same(&b[j]) {
            return false;
        }
        j = j + 1;
    }
    assert(a@ =~= b@);
    true
}

/// The first `n` cells of `r`, with the last one repeated up to `n`.
fn padded_row<T: Cell>(r: &Vec<T>, n: usize) -> (out: Vec<T>)
    requires
        r.len() >= 1 || n == 0,
    ensures
        out@ == pad(r@, n as nat),
{
    let mut out: Vec<T> = Vec::new();
    let mut j: usize = 0;
    while j < n
        invariant
            r.len() >= 1 || n == 0,
            j <= n,
            out@ == pad(r@, n as nat).take(j as int),
        decreases n - j,
    {
        let x = if j < r.len() {
            r[j]
        } else {
            r[r.len() - 1]
        };
        out.push(x);
        j = j + 1;
        assert(out@ =~= pad(r@, n as nat).take(j as int));
    }
    assert(out@ =~= pad(r@, n as nat));
    out
}

/// Compresses a grid; see the module's documentation.
pub fn compress<T: Cell>(g: &Vec<Vec<T>>) -> (r: Vec<Vec<T>>)
    ensures
        cells(r@) == compressed(cells(g@)),
{
    if g.len() == 0 || g[0].len() == 0 {
        let r: Vec<Vec<T>> = Vec::new();
        assert(cells(r@) =~= compressed(cells(g@)));
        return r;
    }
    let ghost t = cells(g@).map_values(|r: Seq<T>| trim_tail(r));
    let mut rows: Vec<Vec<T>> = Vec::new();
    let mut i: usize = 0;
    while i < g.len()
        invariant
            i <= g.len(),
            t.len() == g.len(),
            t == cells(g@).map_values(|r: Seq<T>| trim_tail(r)),
            rows.len() == i,
            cells(rows@) == t.take(i as int),
        decreases g.len() - i,
    {
        let row = &g[i];
        let k = trimmed_len(row);
        let out = padded_row(row, k);
        proof {
            lemma_trim_tail(row@);
            assert(out@ =~= row@.take(k as int));
        }
        rows.push(out);
        i = i + 1;
        assert(cells(rows@) =~= t.take(i as int));
    }
    assert(t.take(t.len() as int) =~= t);
    let mut n: usize = rows.len();
    assert(cells(rows@).take(n as int) =~= t);
    while n >= 2 && rows_equal(&rows[n - 1], &rows[n - 2])
        invariant
            n <= rows.len(),
            rows.len() == t.len(),
            cells(rows@) == t,
            trim_tail(cells(rows@).take(n as int)) == trim_tail(t),
        decreases n,
    {
        assert(cells(rows@).take(n as int).drop_last() =~= cells(rows@).take(n - 1));
        n = n - 1;
    }
    let ghost full = rows@;
    rows.truncate(n);
    assert(cells(rows@) =~= cells(full).take(n as int));
    rows
}

/// Expands a compressed form to `h` rows of `w` cells, or `None` where it
/// cannot stand for such a grid.
pub fn expand<T: Cell>(c: &Vec<Vec<T>>, h: usize, w: usize) -> (r: Option<Vec<Vec<T>>>)
    ensures
        r is Some <==> expand_ok(cells(c@), h as nat, w as nat),
        r matches Some(g) ==> cells(g@) == expanded(cells(c@), h as nat, w as nat),
        r matches Some(g) ==> g@.len() == h && is_rect(cells(g@), w as nat),
{
    let ghost cc = cells(c@);
    let ghost e = expanded(cc, h as nat, w as nat);
    if c.len() == 0 {
        if h != 0 && w != 0 {
            return None;
        }
        let mut out: Vec<Vec<T>> = Vec::new();
        let mut i: usize = 0;
        while i < h
            invariant
                i <= h,
                cc.len() == 0,
                e == expanded(cc, h as nat, w as nat),
                out.len() == i,
                cells(out@) == e.take(i as int),
            decreases h - i,
        {
            let empty: Vec<T> = Vec::new();
            out.push(empty);
            assert(cells(out@)[i as int] == Seq::<T>::empty());
            i = i + 1;
            assert(cells(out@) =~= e.take(i as int));
        }
        assert(cells(out@) =~= e);
        proof {
            lemma_expanded_rect(cc, h as nat, w as nat);
        }
        return Some(out);
    }
    if w == 0 || c.len() > h {
        return None;
    }
    let mut i: usize = 0;
    while i < c.len()
        invariant
            i <= c.len(),
            cc == cells(c@),
            forall|k: int| 0 <= k < i ==> 1 <= #[trigger] cc[k].len() <= w,
        decreases c.len() - i,
    {
        if c[i].len() == 0 || c[i].len() > w {
            assert(cc[i as int].len() == c[i as int]@.len());
            return None;
        }
        i = i + 1;
    }
    let mut out: Vec<Vec<T>> = Vec::new();
    let mut i: usize = 0;
    while i < h
        invariant
            i <= h,
            0 < c.len() <= h,
            cc == cells(c@),
            e == expanded(cc, h as nat, w as nat),
            forall|k: int| 0 <= k < c.len() ==> 1 <= #[trigger] cc[k].len() <= w,
            out.len() == i,
            cells(out@) == e.take(i as int),
        decreases h - i,
    {
        let src = if i < c.len() {
            i
        } else {
            c.len() - 1
        };
        assert(cc[src as int].len() >= 1);
        let row = padded_row(&c[src], w);
        out.push(row);
        proof {
            let p = cc.map_values(|r: Seq<T>| pad(r, w as nat));
            assert(pad(p, h as nat)[i as int] == p[src as int]);
            assert(p[src as int] == pad(cc[src as int], w as nat));
            assert(e[i as int] == pad(cc[src as int], w as nat));
            assert(cells(out@)[i as int] == row@);
        }
        i = i + 1;
        assert(cells(out@) =~= e.take(i as int));
    }
    assert(cells(out@) =~= e);
    proof {
        lemma_expanded_rect(cc, h as nat, w as nat);
    }
    Some(out)
}

} // verus!
