//! Text table documenting a pattern's variants.

use vstd::prelude::*;
use vstd::string::*;
use vstd::utf8::encode_utf8;
use crate::pattern::{PatBit, PatternSchema, PatternVariant};

verus! {

/// `n` copies of `c`.
pub open spec fn repeat(c: char, n: int) -> Seq<char> {
    Seq::new(n as nat, |_i: int| c)
}

/// Length of `s` in bytes of UTF-8, as `str::len` reports it.
pub open spec fn width(s: Seq<char>) -> int {
    encode_utf8(s).len() as usize as int
}

/// Character that shows one position of a bit string.
pub open spec fn bit_char(p: PatBit) -> char {
    match p {
        PatBit::Zero => '0',
        PatBit::One => '1',
        PatBit::Any => 'x',
    }
}

/// A bit string as text.
pub open spec fn render_bits(pat: Seq<PatBit>) -> Seq<char> {
    Seq::new(pat.len(), |i: int| bit_char(pat[i]))
}

/// The first `n` bit names, concatenated.
pub open spec fn concat_names(names: Seq<String>, n: int) -> Seq<char>
    decreases n,
{
    if n <= 0 {
        Seq::empty()
    } else {
        concat_names(names, n - 1) + names[n - 1]@
    }
}

/// Widest display name among the first `n` variants (0 if none).
pub open spec fn max_name_width(vars: Seq<PatternVariant>, n: int) -> int
    decreases n,
{
    if n <= 0 {
        0
    } else {
        let m = max_name_width(vars, n - 1);
        let w = width(vars[n - 1].name@);
        if w > m {
            w
        } else {
            m
        }
    }
}

/// No name among the first `n` variants is wider than their widest.
proof fn lemma_max_name_width(vars: Seq<PatternVariant>, n: int, k: int)
    requires
        0 <= k < n,
    ensures
        width(vars[k].name@) <= max_name_width(vars, n),
    decreases n,
{
    if k < n - 1 {
        lemma_max_name_width(vars, n - 1, k);
    }
}

/// Widest description among the first `n` variants (0 if none).
pub open spec fn max_desc_width(vars: Seq<PatternVariant>, n: int) -> int
    decreases n,
{
    if n <= 0 {
        0
    } else {
        let m = max_desc_width(vars, n - 1);
        let w = width(vars[n - 1].desc@);
        if w > m {
            w
        } else {
            m
        }
    }
}

/// ` | `
pub open spec fn bar() -> Seq<char> {
    seq![' ', '|', ' ']
}

/// `-+-`
pub open spec fn cross() -> Seq<char> {
    seq!['-', '+', '-']
}

/// Header line: the bit names in position order, then an empty name column.
pub open spec fn header_line(s: PatternSchema, name_w: int) -> Seq<char> {
    concat_names(s.bit_names@, s.bit_names@.len() as int) + bar() + repeat(' ', name_w) + seq![
        ' ',
        '|',
        '\n',
    ]
}

/// Separator line under the header.
pub open spec fn separator_line(s: PatternSchema, name_w: int, desc_w: int) -> Seq<char> {
    repeat('-', s.bit_names@.len() as int) + cross() + repeat('-', name_w) + cross() + repeat(
        '-',
        desc_w,
    ) + seq!['\n']
}

/// One variant's line: bit string, name padded to `name_w`, description.
pub open spec fn variant_line(v: PatternVariant, name_w: int) -> Seq<char> {
    render_bits(v.bits@) + bar() + v.name@ + repeat(' ', name_w - width(v.name@)) + bar() + v.desc@
        + seq!['\n']
}

/// Lines of the first `n` variants.
pub open spec fn variant_lines(vars: Seq<PatternVariant>, n: int, name_w: int) -> Seq<char>
    decreases n,
{
    if n <= 0 {
        Seq::empty()
    } else {
        variant_lines(vars, n - 1, name_w) + variant_line(vars[n - 1], name_w)
    }
}

/// The whole documentation table of a pattern.
pub open spec fn docs_table(s: PatternSchema) -> Seq<char> {
    let n = s.variants@.len() as int;
    let name_w = max_name_width(s.variants@, n);
    let desc_w = max_desc_width(s.variants@, n);
    header_line(s, name_w) + separator_line(s, name_w, desc_w) + variant_lines(s.variants@, n, name_w)
}

/// Appends `n` copies of the one-character string `c`.
fn append_repeat(out: &mut String, c: &str, n: usize)
    requires
        c@.len() == 1,
    ensures
        final(out)@ == old(out)@ + repeat(c@[0], n as int),
{
    let mut i: usize = 0;
    while i < n
        invariant
            c@.len() == 1,
            i <= n,
            out@ == old(out)@ + repeat(c@[0], i as int),
        decreases n - i,
    {
        out.append(c);
        assert(out@ =~= old(out)@ + repeat(c@[0], (i + 1) as int));
        i = i + 1;
    }
}

/// Text of a bit string.
fn bits_text(pat: &Vec<PatBit>) -> (r: String)
    ensures
        r@ == render_bits(pat@),
{
    let mut out = String::new();
    let mut i: usize = 0;
    while i < pat.len()
        invariant
            i <= pat@.len(),
            out@ =~= render_bits(pat@).subrange(0, i as int),
        decreases pat@.len() - i,
    {
        match pat[i] {
            PatBit::Zero => {
                proof {
                    reveal_strlit("0");
                }
                out.append("0");
            },
            PatBit::One => {
                proof {
                    reveal_strlit("1");
                }
                out.append("1");
            },
            PatBit::Any => {
                proof {
                    reveal_strlit("x");
                }
                out.append("x");
            },
        }
        i = i + 1;
    }
    assert(out@ =~= render_bits(pat@));
    out
}

impl PatternSchema {
    /// Renders the variant table: a header with the bit names in position
    /// order, a separator, then one line per variant with its bit string,
    /// its name padded to the widest name, and its description.
    pub fn docs_as_ascii_table(&self) -> (r: String)
        ensures
            r@ == docs_table(*self),
    {
        let vars = &self.variants;
        let n = vars.len();
        let mut name_w: usize = 0;
        let mut i: usize = 0;
        while i < n
            invariant
                n == vars@.len(),
                i <= n,
                name_w as int == max_name_width(vars@, i as int),
            decreases n - i,
        {
            let w = vars[i].name.as_str().len();
            if w > name_w {
                name_w = w;
            }
            i = i + 1;
        }
        let mut desc_w: usize = 0;
        let mut i: usize = 0;
        while i < n
            invariant
                n == vars@.len(),
                i <= n,
                desc_w as int == max_desc_width(vars@, i as int),
            decreases n - i,
        {
            let w = vars[i].desc.as_str().len();
            if w > desc_w {
                desc_w = w;
            }
            i = i + 1;
        }
        proof {
            reveal_strlit(" ");
            reveal_strlit("-");
            reveal_strlit(" | ");
            reveal_strlit(" |\n");
            reveal_strlit("-+-");
            reveal_strlit("\n");
        }

        // Header
        let mut ret = String::new();
        let mut p: usize = 0;
        while p < self.bit_names.len()
            invariant
                p <= self.bit_names@.len(),
                ret@ == concat_names(self.bit_names@, p as int),
            decreases self.bit_names@.len() - p,
        {
            ret.append(self.bit_names[p].as_str());
            p = p + 1;
        }
        ret.append(" | ");
        append_repeat(&mut ret, " ", name_w);
        ret.append(" |\n");
        assert(ret@ =~= header_line(*self, name_w as int));
        let ghost header = ret@;

        // Separator
        append_repeat(&mut ret, "-", self.bit_names.len());
        ret.append("-+-");
        append_repeat(&mut ret, "-", name_w);
        ret.append("-+-");
        append_repeat(&mut ret, "-", desc_w);
        ret.append("\n");
        assert(ret@ =~= header + separator_line(*self, name_w as int, desc_w as int));
        let ghost top = ret@;

        // One line per variant
        let mut i: usize = 0;
        while i < n
            invariant
                n == vars@.len(),
                vars == &self.variants,
                i <= n,
                name_w as int == max_name_width(vars@, n as int),
                ret@ == top + variant_lines(vars@, i as int, name_w as int),
                " "@ == seq![' '],
                " | "@ == bar(),
                "\n"@ == seq!['\n'],
            decreases n - i,
        {
            let ghost before = ret@;
            let v = &vars[i];
            ret.append(bits_text(&v.bits).as_str());
            ret.append(" | ");
            ret.append(v.name.as_str());
            let w = v.name.as_str().len();
            if w < name_w {
                append_repeat(&mut ret, " ", name_w - w);
            }
            proof {
                if w >= name_w {
                    lemma_max_name_width(vars@, n as int, i as int);
                    assert(repeat(' ', name_w - width(v.name@)) =~= Seq::<char>::empty());
                }
            }
            ret.append(" | ");
            ret.append(v.desc.as_str());
            ret.append("\n");
            assert(ret@ =~= before + variant_line(vars@[i as int], name_w as int));
            i = i + 1;
        }
        ret
    }
}

/// Tables whose names, descriptions and bit strings agree render alike.
pub proof fn lemma_docs_table_congruent(a: PatternSchema, b: PatternSchema)
    requires
        a.bits_count() == b.bits_count(),
        a.variant_count() == b.variant_count(),
        forall|p: int| 0 <= p < a.bits_count() ==> #[trigger] a.name_at(p) == b.name_at(p),
        forall|v: int|
            0 <= v < a.variant_count() ==> #[trigger] a.bits_of(v) == b.bits_of(v) && a.variants@[v].name@
                == b.variants@[v].name@ && a.variants@[v].desc@ == b.variants@[v].desc@,
    ensures
        docs_table(a) == docs_table(b),
{
    let n = a.variants@.len() as int;
    assert forall|p: int| 0 <= p < a.bit_names@.len() implies #[trigger] a.bit_names@[p]@
        == b.bit_names@[p]@ by {
        assert(a.name_at(p) == b.name_at(p));
    }
    assert forall|v: int| 0 <= v < n implies #[trigger] a.variants@[v].bits@ == b.variants@[v].bits@
        && a.variants@[v].name@ == b.variants@[v].name@ && a.variants@[v].desc@ == b.variants@[v].desc@ by {
        assert(a.bits_of(v) == b.bits_of(v));
    }
    assert forall|v: int| 0 <= v < n implies #[trigger] a.variants@[v].name@ == b.variants@[v].name@
        && a.variants@[v].desc@ == b.variants@[v].desc@ by {
        assert(a.bits_of(v) == b.bits_of(v));
    }
    lemma_concat_names_congruent(a.bit_names@, b.bit_names@, a.bit_names@.len() as int);
    lemma_widths_congruent(a.variants@, b.variants@, n);
    let w = max_name_width(a.variants@, n);
    lemma_lines_congruent(a.variants@, b.variants@, n, w);
}

proof fn lemma_concat_names_congruent(a: Seq<String>, b: Seq<String>, n: int)
    requires
        0 <= n <= a.len(),
        a.len() == b.len(),
        forall|p: int| 0 <= p < a.len() ==> #[trigger] a[p]@ == b[p]@,
    ensures
        concat_names(a, n) == concat_names(b, n),
    decreases n,
{
    if n > 0 {
        lemma_concat_names_congruent(a, b, n - 1);
        assert(a[n - 1]@ == b[n - 1]@);
    }
}

proof fn lemma_widths_congruent(a: Seq<PatternVariant>, b: Seq<PatternVariant>, n: int)
    requires
        0 <= n <= a.len(),
        a.len() == b.len(),
        forall|v: int|
            0 <= v < a.len() ==> #[trigger] a[v].name@ == b[v].name@ && a[v].desc@ == b[v].desc@,
    ensures
        max_name_width(a, n) == max_name_width(b, n),
        max_desc_width(a, n) == max_desc_width(b, n),
    decreases n,
{
    if n > 0 {
        lemma_widths_congruent(a, b, n - 1);
        assert(a[n - 1].name@ == b[n - 1].name@);
    }
}

proof fn lemma_lines_congruent(a: Seq<PatternVariant>, b: Seq<PatternVariant>, n: int, w: int)
    requires
        0 <= n <= a.len(),
        a.len() == b.len(),
        forall|v: int|
            0 <= v < a.len() ==> #[trigger] a[v].bits@ == b[v].bits@ && a[v].name@ == b[v].name@
                && a[v].desc@ == b[v].desc@,
    ensures
        variant_lines(a, n, w) == variant_lines(b, n, w),
    decreases n,
{
    if n > 0 {
        lemma_lines_congruent(a, b, n - 1, w);
        assert(a[n - 1].bits@ == b[n - 1].bits@);
    }
}

} // verus!
