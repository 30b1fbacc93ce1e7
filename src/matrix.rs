//! A square "may give to" matrix over a sequence of distinct names.

use vstd::prelude::*;

verus! {

/// The names held by a sequence of strings.
pub open spec fn names(v: Seq<String>) -> Seq<Seq<char>> {
    v.map_values(|s: String| s@)
}

/// The position of `k` in `ks`; determined when `ks` holds no duplicates.
pub open spec fn pos(ks: Seq<Seq<char>>, k: Seq<char>) -> int {
    choose|i: int| 0 <= i < ks.len() && ks[i] == k
}

/// The names of `ks` whose flag in `row` is set, in order.
pub open spec fn selected(ks: Seq<Seq<char>>, row: Seq<bool>) -> Seq<Seq<char>>
    decreases ks.len(),
{
    if ks.len() == 0 || row.len() == 0 {
        Seq::empty()
    } else {
        let rest = selected(ks.drop_last(), row.drop_last());
        if row.last() {
            rest.push(ks.last())
        } else {
            rest
        }
    }
}

/// `after` is `before` with every cell of column `j` set to `val`, but the
/// diagonal one.
pub open spec fn column_set(before: Seq<Seq<bool>>, after: Seq<Seq<bool>>, j: int, val: bool) -> bool {
    &&& after.len() == before.len()
    &&& forall|a: int| 0 <= a < before.len() ==> #[trigger] after[a].len() == before[a].len()
    &&& forall|a: int, b: int|
        0 <= a < before.len() && 0 <= b < before.len() ==> #[trigger] after[a][b] == if b == j && a
            != b {
            val
        } else {
            before[a][b]
        }
}

/// A set flag in `row` puts at least one name into `selected(ks, row)`.
pub proof fn lemma_selected_nonempty(ks: Seq<Seq<char>>, row: Seq<bool>, j: int)
    requires
        ks.len() == row.len(),
        0 <= j < row.len(),
        row[j],
    ensures
        selected(ks, row).len() > 0,
    decreases ks.len(),
{
    if j < row.len() - 1 {
        lemma_selected_nonempty(ks.drop_last(), row.drop_last(), j);
    }
}

/// In a sequence without duplicates, the position of the i-th element is i.
pub proof fn lemma_pos(ks: Seq<Seq<char>>, i: int)
    requires
        ks.no_duplicates(),
        0 <= i < ks.len(),
    ensures
        pos(ks, ks[i]) == i,
{
    let j = pos(ks, ks[i]);
    assert(0 <= j < ks.len() && ks[j] == ks[i]);
}

#[derive(Debug, Clone, Copy, PartialEq, Eq, Structural)]
pub enum MatrixError {
    /// Two keys given to a matrix are equal.
    DuplicateKey,
    /// A name that is not a key of the matrix.
    UnknownKey,
}

/// Cell (i, j) tells whether the i-th key may be given the j-th key as
/// recipient. The diagonal is always false.
#[derive(Clone)]
pub struct Matrix {
    keys: Vec<String>,
    data: Vec<Vec<bool>>,
}

impl Matrix {
    pub closed spec fn keys_view(&self) -> Seq<Seq<char>> {
        names(self.keys@)
    }

    pub closed spec fn grid(&self) -> Seq<Seq<bool>> {
        self.data@.map_values(|r: Vec<bool>| r@)
    }

    pub open spec fn wf(&self) -> bool {
        let n = self.keys_view().len();
        &&& self.keys_view().no_duplicates()
        &&& self.grid().len() == n
        &&& forall|i: int| 0 <= i < n ==> #[trigger] self.grid()[i].len() == n
        &&& forall|i: int| 0 <= i < n ==> !#[trigger] self.grid()[i][i]
    }

    /// The cell for giver `x` and recipient `y`.
    pub open spec fn cell(&self, x: Seq<char>, y: Seq<char>) -> bool {
        self.grid()[pos(self.keys_view(), x)][pos(self.keys_view(), y)]
    }

    pub open spec fn has_key(&self, k: Seq<char>) -> bool {
        self.keys_view().contains(k)
    }

    /// A matrix over distinct `keys` in which everyone may give to everyone
    /// else.
    pub fn new(keys: Vec<String>) -> (r: Self)
        requires
            names(keys@).no_duplicates(),
        ensures
            r.wf(),
            r.keys_view() == names(keys@),
            forall|i: int, j: int|
                0 <= i < keys@.len() && 0 <= j < keys@.len() ==> #[trigger] r.grid()[i][j] == (i
                    != j),
    {
        let size = keys.len();
        let mut data: Vec<Vec<bool>> = Vec::new();
        let mut i: usize = 0;
        while i < size
            invariant
                size == keys@.len(),
                i <= size,
                data@.len() == i,
                forall|a: int| 0 <= a < i ==> #[trigger] data@[a]@.len() == size,
                forall|a: int, b: int|
                    0 <= a < i && 0 <= b < size ==> #[trigger] data@[a]@[b] == (a != b),
            decreases size - i,
        {
            let mut row: Vec<bool> = Vec::new();
            let mut j: usize = 0;
            while j < size
                invariant
                    j <= size,
                    row@.len() == j,
                    forall|b: int| 0 <= b < j ==> #[trigger] row@[b] == (i != b),
                decreases size - j,
            {
                row.push(i != j);
                j = j + 1;
            }
            data.push(row);
            i = i + 1;
        }
        let r = Matrix { keys, data };
        assert(r.grid().len() == size);
        r
    }

    /// Like `new`, but reports equal keys instead of requiring them apart.
    pub fn try_new(keys: Vec<String>) -> (r: Result<Self, MatrixError>)
        ensures
            r is Ok <==> names(keys@).no_duplicates(),
            r matches Err(e) ==> e == MatrixError::DuplicateKey,
            r matches Ok(m) ==> {
                &&& m.wf()
                &&& m.keys_view() == names(keys@)
                &&& forall|i: int, j: int|
                    0 <= i < keys@.len() && 0 <= j < keys@.len() ==> #[trigger] m.grid()[i][j]
                        == (i != j)
            },
    {
        let n = keys.len();
        let ghost ks = names(keys@);
        let mut i: usize = 0;
        while i < n
            invariant
                n == keys@.len(),
                ks == names(keys@),
                i <= n,
                forall|a: int, b: int| 0 <= a < i && 0 <= b < n && a != b ==> ks[a] != ks[b],
            decreases n - i,
        {
            let mut j: usize = 0;
            while j < n
                invariant
                    n == keys@.len(),
                    ks == names(keys@),
                    i < n,
                    j <= n,
                    forall|a: int, b: int| 0 <= a < i && 0 <= b < n && a != b ==> ks[a] != ks[b],
                    forall|b: int| 0 <= b < j && b != i ==> ks[i as int] != ks[b],
                decreases n - j,
            {
                if j != i && keys[i] == keys[j] {
                    assert(ks[i as int] == ks[j as int]);
                    return Err(MatrixError::DuplicateKey);
                }
                j = j + 1;
            }
            i = i + 1;
        }
        Ok(Matrix::new(keys))
    }

    /// The position of `key` among the keys.
    pub fn index_of(&self, key: &str) -> (r: Result<usize, MatrixError>)
        requires
            self.wf(),
        ensures
            r is Ok <==> self.has_key(key@),
            r matches Ok(i) ==> i < self.keys_view().len() && self.keys_view()[i as int] == key@
                && i == pos(self.keys_view(), key@),
            r matches Err(e) ==> e == MatrixError::UnknownKey,
    {
        let wanted = key.to_owned();
        let mut i: usize = 0;
        while i < self.keys.len()
            invariant
                self.wf(),
                wanted@ == key@,
                i <= self.keys@.len(),
                forall|a: int| 0 <= a < i ==> self.keys_view()[a] != key@,
            decreases self.keys@.len() - i,
        {
            if self.keys[i] == wanted {
                proof {
                    lemma_pos(self.keys_view(), i as int);
                }
                return Ok(i);
            }
            i = i + 1;
        }
        Err(MatrixError::UnknownKey)
    }

    /// Whether `key` is one of the keys.
    pub fn contains(&self, key: &str) -> (r: bool)
        requires
            self.wf(),
        ensures
            r == self.has_key(key@),
    {
        self.index_of(key).is_ok()
    }

    /// Whether `x` may give to `y`.
    pub fn get(&self, x: &str, y: &str) -> (r: bool)
        requires
            self.wf(),
            self.has_key(x@),
            self.has_key(y@),
        ensures
            r == self.cell(x@, y@),
    {
        let ix = self.index_of(x).unwrap();
        let iy = self.index_of(y).unwrap();
        assert(self.grid()[ix as int] == self.data@[ix as int]@);
        self.data[ix][iy]
    }

    /// A copy of the row of `x`: whom `x` may give to, by position.
    pub fn get_row(&self, x: &str) -> (r: Vec<bool>)
        requires
            self.wf(),
            self.has_key(x@),
        ensures
            r@ == self.grid()[pos(self.keys_view(), x@)],
    {
        let ix = self.index_of(x).unwrap();
        self.data[ix].clone()
    }

    /// Sets the cell for giver `x` and recipient `y`; a diagonal cell stays
    /// false.
    pub fn set(&mut self, x: &str, y: &str, val: bool)
        requires
            old(self).wf(),
            old(self).has_key(x@),
            old(self).has_key(y@),
        ensures
            final(self).wf(),
            final(self).keys_view() == old(self).keys_view(),
            ({
                let ix = pos(old(self).keys_view(), x@);
                let iy = pos(old(self).keys_view(), y@);
                final(self).grid() == old(self).grid().update(
                    ix,
                    old(self).grid()[ix].update(iy, val && ix != iy),
                )
            }),
    {
        let ix = self.index_of(x).unwrap();
        let iy = self.index_of(y).unwrap();
        let ghost g = self.grid();
        assert(self.grid()[ix as int] == self.data@[ix as int]@);
        let mut row = self.data[ix].clone();
        row.set(iy, val && ix != iy);
        self.data.set(ix, row);
        assert(self.grid() =~= g.update(ix as int, g[ix as int].update(iy as int, val && ix != iy)));
    }

    /// Sets every cell of the column of `y` to `val`, but the diagonal one,
    /// which stays false.
    pub fn set_col(&mut self, y: &str, val: bool)
        requires
            old(self).wf(),
            old(self).has_key(y@),
        ensures
            final(self).wf(),
            final(self).keys_view() == old(self).keys_view(),
            column_set(old(self).grid(), final(self).grid(), pos(old(self).keys_view(), y@), val),
    {
        let iy = self.index_of(y).unwrap();
        let n = self.data.len();
        let ghost g = self.grid();
        let mut i: usize = 0;
        while i < n
            invariant
                n == self.keys_view().len(),
                n == g.len(),
                self.keys_view() == old(self).keys_view(),
                self.keys_view().no_duplicates(),
                g == old(self).grid(),
                old(self).wf(),
                iy < n,
                iy == pos(old(self).keys_view(), y@),
                i <= n,
                self.grid().len() == n,
                forall|a: int| 0 <= a < n ==> #[trigger] self.grid()[a].len() == n,
                forall|a: int, b: int|
                    0 <= a < n && 0 <= b < n ==> #[trigger] self.grid()[a][b] == if a < i && b
                        == iy && a != b {
                        val
                    } else {
                        g[a][b]
                    },
            decreases n - i,
        {
            assert(self.grid()[i as int] == self.data@[i as int]@);
            let mut row = self.data[i].clone();
            row.set(iy, val && i != iy);
            let ghost before = self.grid();
            self.data.set(i, row);
            assert(self.grid() =~= before.update(i as int, before[i as int].update(iy as int, val && i != iy)));
            i = i + 1;
        }
    }

    /// Whether `x` may give to `y`, or `UnknownKey` when either is not a key.
    pub fn try_get(&self, x: &str, y: &str) -> (r: Result<bool, MatrixError>)
        requires
            self.wf(),
        ensures
            r is Ok <==> self.has_key(x@) && self.has_key(y@),
            r matches Ok(b) ==> b == self.cell(x@, y@),
            r matches Err(e) ==> e == MatrixError::UnknownKey,
    {
        if self.contains(x) && self.contains(y) {
            Ok(self.get(x, y))
        } else {
            Err(MatrixError::UnknownKey)
        }
    }

    /// `set`, or `UnknownKey` and no change when either name is not a key.
    pub fn try_set(&mut self, x: &str, y: &str, val: bool) -> (r: Result<(), MatrixError>)
        requires
            old(self).wf(),
        ensures
            final(self).wf(),
            r is Ok <==> old(self).has_key(x@) && old(self).has_key(y@),
            r matches Err(e) ==> e == MatrixError::UnknownKey && *final(self) == *old(self),
            r is Ok ==> final(self).keys_view() == old(self).keys_view() && ({
                let ix = pos(old(self).keys_view(), x@);
                let iy = pos(old(self).keys_view(), y@);
                final(self).grid() == old(self).grid().update(
                    ix,
                    old(self).grid()[ix].update(iy, val && ix != iy),
                )
            }),
    {
        if self.contains(x) && self.contains(y) {
            self.set(x, y, val);
            Ok(())
        } else {
            Err(MatrixError::UnknownKey)
        }
    }

    /// `set_col`, or `UnknownKey` and no change when `y` is not a key.
    pub fn try_set_col(&mut self, y: &str, val: bool) -> (r: Result<(), MatrixError>)
        requires
            old(self).wf(),
        ensures
            final(self).wf(),
            r is Ok <==> old(self).has_key(y@),
            r matches Err(e) ==> e == MatrixError::UnknownKey && *final(self) == *old(self),
            r is Ok ==> final(self).keys_view() == old(self).keys_view() && column_set(
                old(self).grid(),
                final(self).grid(),
                pos(old(self).keys_view(), y@),
                val,
            ),
    {
        if self.contains(y) {
            self.set_col(y, val);
            Ok(())
        } else {
            Err(MatrixError::UnknownKey)
        }
    }

    /// The number of keys.
    pub fn size(&self) -> (r: usize)
        ensures
            r == self.keys_view().len(),
    {
        self.keys.len()
    }

    /// The key at position `index`.
    pub fn key_at(&self, index: usize) -> (r: &str)
        requires
            index < self.keys_view().len(),
        ensures
            r@ == self.keys_view()[index as int],
    {
        self.keys[index].as_str()
    }

    /// The keys that `x` may currently give to, in key order.
    pub fn eligible(&self, x: &str) -> (r: Vec<String>)
        requires
            self.wf(),
            self.has_key(x@),
        ensures
            names(r@) == selected(self.keys_view(), self.grid()[pos(self.keys_view(), x@)]),
            forall|m: int|
                0 <= m < r@.len() ==> self.has_key(#[trigger] r@[m]@) && self.cell(x@, r@[m]@),
            r@.len() == 0 ==> forall|j: int|
                0 <= j < self.keys_view().len() ==> !#[trigger] self.grid()[pos(
                    self.keys_view(),
                    x@,
                )][j],
    {
        let row = self.get_row(x);
        let ghost ks = self.keys_view();
        let ghost ix = pos(ks, x@);
        let ghost mut idx: Seq<int> = Seq::empty();
        let mut basket: Vec<String> = Vec::new();
        let mut i: usize = 0;
        while i < row.len()
            invariant
                self.wf(),
                ks == self.keys_view(),
                0 <= ix < ks.len(),
                row@ == self.grid()[ix],
                row@.len() == ks.len(),
                i <= row@.len(),
                names(basket@) == selected(ks.subrange(0, i as int), row@.subrange(0, i as int)),
                idx.len() == basket@.len(),
                forall|m: int|
                    0 <= m < idx.len() ==> 0 <= #[trigger] idx[m] < ks.len() && row@[idx[m]]
                        && basket@[m]@ == ks[idx[m]],
            decreases row@.len() - i,
        {
            assert(ks.subrange(0, i + 1).drop_last() =~= ks.subrange(0, i as int));
            assert(row@.subrange(0, i + 1).drop_last() =~= row@.subrange(0, i as int));
            if row[i] {
                let k = self.keys[i].clone();
                let ghost old_basket = basket@;
                basket.push(k);
                proof {
                    idx = idx.push(i as int);
                }
                assert(names(basket@) =~= names(old_basket).push(ks[i as int]));
            }
            i = i + 1;
        }
        assert(ks.subrange(0, row@.len() as int) =~= ks);
        assert(row@.subrange(0, row@.len() as int) =~= row@);
        proof {
            lemma_pos(ks, ix);
            if basket@.len() == 0 {
                assert forall|j: int| 0 <= j < ks.len() implies !#[trigger] self.grid()[ix][j] by {
                    if row@[j] {
                        lemma_selected_nonempty(ks, row@, j);
                    }
                }
            }
            assert forall|m: int| 0 <= m < basket@.len() implies self.has_key(
                #[trigger] basket@[m]@,
            ) && self.cell(x@, basket@[m]@) by {
                lemma_pos(ks, idx[m]);
            }
        }
        basket
    }
}

} // verus!
