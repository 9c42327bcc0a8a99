//! Render projection: how a row's logical characters are displayed, and how
//! logical columns (`cx`) translate to visual columns (`rx`) and back.
use vstd::prelude::*;

verus! {

/// Width of a tab stop, in visual columns.
pub const TAB_STOP: usize = 8;

/// The character that expands to the next tab stop.
pub const TAB: char = '\t';

/// `n` space characters.
pub open spec fn spaces(n: nat) -> Seq<char> {
    Seq::new(n, |_i: int| ' ')
}

/// Number of spaces a tab occupies when it starts at visual column `col`.
pub open spec fn tab_width(col: nat) -> nat {
    (TAB_STOP - col % (TAB_STOP as nat)) as nat
}

/// The display string of a row: every character is copied, except that a tab
/// becomes the spaces that reach the next multiple of `TAB_STOP`.
pub open spec fn render_of(s: Seq<char>) -> Seq<char>
    decreases s.len(),
{
    if s.len() == 0 {
        Seq::empty()
    } else {
        let p = render_of(s.drop_last());
        if s.last() == TAB {
            p + spaces(tab_width(p.len()))
        } else {
            p.push(s.last())
        }
    }
}

/// Visual column of logical column `cx`: the width of the render of the first
/// `cx` characters.
pub open spec fn render_col(s: Seq<char>, cx: int) -> nat {
    render_of(s.subrange(0, cx)).len()
}

/// `cx` is the logical column that holds visual column `rx`: the characters
/// before `cx` end at or before `rx`, and character `cx` (if any) reaches past it.
pub open spec fn is_cx_for_rx(s: Seq<char>, rx: int, cx: int) -> bool {
    &&& 0 <= cx <= s.len()
    &&& render_col(s, cx) <= rx
    &&& (cx == s.len() || rx < render_col(s, cx + 1))
}

/// `s` holds no tab.
pub open spec fn tab_free(s: Seq<char>) -> bool {
    forall|i: int| 0 <= i < s.len() ==> s[i] != TAB
}

/// One character further: a tab advances to the next tab stop, anything else by one.
pub proof fn lemma_render_col_step(s: Seq<char>, k: int)
    requires
        0 <= k < s.len(),
    ensures
        render_col(s, k + 1) == if s[k] == TAB {
            render_col(s, k) + tab_width(render_col(s, k))
        } else {
            render_col(s, k) + 1
        },
        render_col(s, k) < render_col(s, k + 1),
{
    let t = s.subrange(0, k + 1);
    assert(t.drop_last() =~= s.subrange(0, k));
    assert(t.last() == s[k]);
}

/// The full row renders to `render_col(s, len)`.
pub proof fn lemma_render_col_len(s: Seq<char>)
    ensures
        render_col(s, s.len() as int) == render_of(s).len(),
{
    assert(s.subrange(0, s.len() as int) =~= s);
}

/// Every character takes at least one visual column.
pub proof fn lemma_render_col_mono(s: Seq<char>, j: int, k: int)
    requires
        0 <= j <= k <= s.len(),
    ensures
        render_col(s, j) + (k - j) <= render_col(s, k),
    decreases k - j,
{
    if j < k {
        lemma_render_col_mono(s, j, k - 1);
        lemma_render_col_step(s, k - 1);
    }
}

/// Visual columns within a row never exceed the width of its render.
pub proof fn lemma_render_col_bound(s: Seq<char>, k: int)
    requires
        0 <= k <= s.len(),
    ensures
        render_col(s, k) <= render_of(s).len(),
{
    lemma_render_col_mono(s, k, s.len() as int);
    lemma_render_col_len(s);
}

/// At most one logical column holds a given visual column.
pub proof fn lemma_cx_for_rx_unique(s: Seq<char>, rx: int, a: int, b: int)
    requires
        is_cx_for_rx(s, rx, a),
        is_cx_for_rx(s, rx, b),
    ensures
        a == b,
{
    if a < b {
        lemma_render_col_mono(s, a + 1, b);
    } else if b < a {
        lemma_render_col_mono(s, b + 1, a);
    }
}

/// Mapping a logical column to its visual column and back gives the logical
/// column again, tabs or not.
pub proof fn lemma_cx_rx_round_trip(s: Seq<char>, cx: int)
    requires
        0 <= cx <= s.len(),
    ensures
        is_cx_for_rx(s, render_col(s, cx) as int, cx),
{
    if cx < s.len() {
        lemma_render_col_step(s, cx);
    }
}

/// In a row without tabs, the render is the row itself, every visual column
/// equals its logical column, and each column maps back to itself.
pub proof fn lemma_tab_free_identity(s: Seq<char>)
    requires
        tab_free(s),
    ensures
        render_of(s) == s,
        forall|cx: int| 0 <= cx <= s.len() ==> #[trigger] render_col(s, cx) == cx,
        forall|rx: int| 0 <= rx <= s.len() ==> #[trigger] is_cx_for_rx(s, rx, rx),
    decreases s.len(),
{
    if s.len() > 0 {
        let p = s.drop_last();
        assert(tab_free(p));
        lemma_tab_free_identity(p);
        assert(p.push(s.last()) =~= s);
    }
    assert forall|cx: int| 0 <= cx <= s.len() implies #[trigger] render_col(s, cx) == cx by {
        let t = s.subrange(0, cx);
        assert(tab_free(t));
        lemma_tab_free_render(t);
    }
    assert forall|rx: int| 0 <= rx <= s.len() implies #[trigger] is_cx_for_rx(s, rx, rx) by {
        let t = s.subrange(0, rx);
        assert(tab_free(t));
        lemma_tab_free_render(t);
        if rx < s.len() {
            let u = s.subrange(0, rx + 1);
            assert(tab_free(u));
            lemma_tab_free_render(u);
        }
    }
}

/// In a row without tabs, logical column `cx` is visual column `cx`, and
/// visual column `rx` maps back to logical column `rx`.
pub proof fn lemma_tab_free_columns(s: Seq<char>, cx: int, rx: int, back: int)
    requires
        tab_free(s),
        0 <= cx <= s.len(),
        0 <= rx <= s.len(),
        is_cx_for_rx(s, rx, back),
    ensures
        render_col(s, cx) == cx,
        back == rx,
{
    lemma_tab_free_identity(s);
    assert(is_cx_for_rx(s, rx, rx));
    lemma_cx_for_rx_unique(s, rx, back, rx);
}

proof fn lemma_tab_free_render(s: Seq<char>)
    requires
        tab_free(s),
    ensures
        render_of(s) == s,
    decreases s.len(),
{
    if s.len() > 0 {
        let p = s.drop_last();
        assert(tab_free(p));
        lemma_tab_free_render(p);
        assert(p.push(s.last()) =~= s);
    }
}

/// Builds the display string of a row.
pub fn render_row(s: &Vec<char>) -> (r: Vec<char>)
    ensures
        r@ == render_of(s@),
{
    let mut r: Vec<char> = Vec::new();
    let mut i: usize = 0;
    while i < s.len()
        invariant
            i <= s.len(),
            r@ == render_of(s@.subrange(0, i as int)),
        decreases s.len() - i,
    {
        let c = s[i];
        let ghost p = r@;
        proof {
            let t = s@.subrange(0, i as int + 1);
            assert(t.drop_last() =~= s@.subrange(0, i as int));
        }
        if c == TAB {
            let n: usize = TAB_STOP - r.len() % TAB_STOP;
            let mut k: usize = 0;
            while k < n
                invariant
                    k <= n,
                    n == tab_width(p.len()),
                    r@ == p + spaces(k as nat),
                decreases n - k,
            {
                r.push(' ');
                k = k + 1;
                assert(r@ =~= p + spaces(k as nat));
            }
        } else {
            r.push(c);
        }
        i = i + 1;
    }
    assert(s@.subrange(0, i as int) =~= s@);
    r
}

/// Visual column of logical column `cx` in `s`.
pub fn col_to_render(s: &Vec<char>, cx: usize) -> (rx: usize)
    requires
        cx <= s.len(),
        render_of(s@).len() <= usize::MAX,
    ensures
        rx == render_col(s@, cx as int),
{
    let mut rx: usize = 0;
    let mut i: usize = 0;
    proof {
        assert(s@.subrange(0, 0) =~= Seq::<char>::empty());
    }
    while i < cx
        invariant
            i <= cx <= s.len(),
            render_of(s@).len() <= usize::MAX,
            rx == render_col(s@, i as int),
        decreases cx - i,
    {
        proof {
            lemma_render_col_step(s@, i as int);
            lemma_render_col_bound(s@, i as int + 1);
        }
        if s[i] == TAB {
            rx = rx + (TAB_STOP - rx % TAB_STOP);
        } else {
            rx = rx + 1;
        }
        i = i + 1;
    }
    rx
}

/// Logical column of `s` that holds visual column `rx`; the row's length when
/// `rx` lies at or past the end of the render.
pub fn render_to_col(s: &Vec<char>, rx: usize) -> (cx: usize)
    ensures
        is_cx_for_rx(s@, rx as int, cx as int),
{
    let mut cur: usize = 0;
    let mut i: usize = 0;
    proof {
        assert(s@.subrange(0, 0) =~= Seq::<char>::empty());
    }
    while i < s.len()
        invariant
            i <= s.len(),
            cur == render_col(s@, i as int),
            cur <= rx,
        decreases s.len() - i,
    {
        proof {
            lemma_render_col_step(s@, i as int);
        }
        let w: usize = if s[i] == TAB {
            TAB_STOP - cur % TAB_STOP
        } else {
            1
        };
        if w > rx - cur {
            return i;
        }
        cur = cur + w;
        i = i + 1;
    }
    i
}

} // verus!
