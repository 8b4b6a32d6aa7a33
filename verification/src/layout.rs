//! How C lays out a struct, and the layouts of the records that the kernel side shares.

use vstd::prelude::*;

verus! {

/// The size and alignment of one field.
#[derive(Clone, Copy, PartialEq, Eq, Debug, Structural)]
pub struct Field {
    pub size: usize,
    pub align: usize,
}

/// The first multiple of `align` from `n` on.
pub open spec fn align_up(n: nat, align: nat) -> nat {
    if n % align == 0 {
        n
    } else {
        (n + align - n % align) as nat
    }
}

/// Where the first `n` fields end: each stands after those before it, at its own alignment.
pub open spec fn fields_end(fields: Seq<Field>, n: nat) -> nat
    decreases n,
{
    if n == 0 {
        0
    } else {
        align_up(fields_end(fields, (n - 1) as nat), fields[n - 1].align as nat)
            + fields[n - 1].size as nat
    }
}

/// Where field `i` starts.
pub open spec fn field_offset(fields: Seq<Field>, i: int) -> nat {
    align_up(fields_end(fields, i as nat), fields[i].align as nat)
}

/// The largest alignment among the first `n` fields, at least one.
pub open spec fn struct_align(fields: Seq<Field>, n: nat) -> nat
    decreases n,
{
    if n == 0 {
        1
    } else {
        let before = struct_align(fields, (n - 1) as nat);
        let own = fields[n - 1].align as nat;
        if own > before {
            own
        } else {
            before
        }
    }
}

/// The size of the struct: where its fields end, rounded up to its alignment.
pub open spec fn struct_size(fields: Seq<Field>) -> nat {
    align_up(fields_end(fields, fields.len()), struct_align(fields, fields.len()))
}

/// A struct's layout.
pub struct CLayout {
    pub size: usize,
    pub align: usize,
    /// Where each field starts.
    pub offsets: Vec<usize>,
}

/// The layout is that of a struct with these fields.
pub open spec fn is_layout(l: CLayout, fields: Seq<Field>) -> bool {
    &&& l.size == struct_size(fields)
    &&& l.align == struct_align(fields, fields.len())
    &&& l.offsets@.len() == fields.len()
    &&& forall|i: int| 0 <= i < fields.len() ==> #[trigger] l.offsets@[i] == field_offset(fields, i)
}

proof fn lemma_align_up(n: nat, align: nat)
    requires
        align > 0,
    ensures
        n <= align_up(n, align) < n + align,
        align_up(n, align) % align == 0,
{
    vstd::arithmetic::div_mod::lemma_fundamental_div_mod(n as int, align as int);
    if n % align != 0 {
        let q = n as int / align as int;
        assert(align_up(n, align) == align * q + align);
        vstd::arithmetic::div_mod::lemma_mod_multiples_vanish(q, align as int, align as int);
        vstd::arithmetic::div_mod::lemma_mod_self_0(align as int);
    }
}

proof fn lemma_fields_end_grows(fields: Seq<Field>, k: nat, n: nat)
    requires
        k <= n <= fields.len(),
        forall|i: int| 0 <= i < fields.len() ==> (#[trigger] fields[i]).align > 0,
    ensures
        fields_end(fields, k) <= fields_end(fields, n),
    decreases n - k,
{
    if k < n {
        lemma_fields_end_grows(fields, k, (n - 1) as nat);
        lemma_align_up(fields_end(fields, (n - 1) as nat), fields[n - 1].align as nat);
    }
}

proof fn lemma_struct_align_positive(fields: Seq<Field>, n: nat)
    ensures
        struct_align(fields, n) >= 1,
    decreases n,
{
    if n > 0 {
        lemma_struct_align_positive(fields, (n - 1) as nat);
    }
}

/// The first multiple of `align` from `n` on, if it fits.
fn checked_align_up(n: usize, align: usize) -> (r: Option<usize>)
    requires
        align > 0,
    ensures
        r is None <==> align_up(n as nat, align as nat) > usize::MAX,
        r matches Some(m) ==> m == align_up(n as nat, align as nat),
{
    let past: usize = n % align;
    if past == 0 {
        Some(n)
    } else {
        n.checked_add(align - past)
    }
}

/// Lays out a struct; `None` where its size does not fit.
pub fn c_layout(fields: &[Field]) -> (r: Option<CLayout>)
    requires
        forall|i: int| 0 <= i < fields@.len() ==> (#[trigger] fields@[i]).align > 0,
    ensures
        r is None <==> struct_size(fields@) > usize::MAX,
        r matches Some(l) ==> is_layout(l, fields@),
{
    let n: usize = fields.len();
    let mut end: usize = 0;
    let mut align: usize = 1;
    let mut offsets: Vec<usize> = Vec::new();
    for i in 0..n
        invariant
            n == fields@.len(),
            forall|k: int| 0 <= k < fields@.len() ==> (#[trigger] fields@[k]).align > 0,
            end == fields_end(fields@, i as nat),
            align == struct_align(fields@, i as nat),
            align >= 1,
            offsets@.len() == i,
            forall|k: int| 0 <= k < i ==> #[trigger] offsets@[k] == field_offset(fields@, k),
    {
        let f: Field = fields[i];
        let start = checked_align_up(end, f.align);
        proof {
            lemma_align_up(end as nat, f.align as nat);
            lemma_struct_size_bound(fields@, (i + 1) as nat);
        }
        let at: usize = match start {
            Some(at) => at,
            None => {
                return None;
            },
        };
        end = match at.checked_add(f.size) {
            Some(e) => e,
            None => {
                return None;
            },
        };
        if f.align > align {
            align = f.align;
        }
        offsets.push(at);
    }
    match checked_align_up(end, align) {
        None => None,
        Some(size) => Some(CLayout { size, align, offsets }),
    }
}

proof fn lemma_struct_size_bound(fields: Seq<Field>, k: nat)
    requires
        k <= fields.len(),
        forall|i: int| 0 <= i < fields.len() ==> (#[trigger] fields[i]).align > 0,
    ensures
        fields_end(fields, k) <= struct_size(fields),
{
    lemma_fields_end_grows(fields, k, fields.len());
    lemma_struct_align_positive(fields, fields.len());
    lemma_align_up(
        fields_end(fields, fields.len()),
        struct_align(fields, fields.len()),
    );
}

/// Every field starts at a multiple of its alignment and after the field before it ends, and all
/// of them lie inside the struct.
pub proof fn fields_do_not_overlap(fields: Seq<Field>, i: int)
    requires
        0 <= i < fields.len(),
        forall|k: int| 0 <= k < fields.len() ==> (#[trigger] fields[k]).align > 0,
    ensures
        field_offset(fields, i) % (fields[i].align as nat) == 0,
        i > 0 ==> field_offset(fields, i - 1) + fields[i - 1].size <= field_offset(fields, i),
        field_offset(fields, i) + fields[i].size <= struct_size(fields),
{
    lemma_align_up(fields_end(fields, i as nat), fields[i].align as nat);
    lemma_struct_size_bound(fields, (i + 1) as nat);
}

/// There is no more padding than alignment asks for: less than a field's alignment before it, and
/// less than the struct's alignment at the end.
pub proof fn no_idle_padding(fields: Seq<Field>, i: int)
    requires
        0 <= i < fields.len(),
        forall|k: int| 0 <= k < fields.len() ==> (#[trigger] fields[k]).align > 0,
    ensures
        field_offset(fields, 0) == 0,
        i > 0 ==> field_offset(fields, i) < field_offset(fields, i - 1) + fields[i - 1].size
            + fields[i].align,
        struct_align(fields, fields.len()) >= fields[i].align,
        struct_size(fields) % struct_align(fields, fields.len()) == 0,
        struct_size(fields) < field_offset(fields, fields.len() - 1) + fields[fields.len() - 1].size
            + struct_align(fields, fields.len()),
{
    lemma_align_up(0, fields[0].align as nat);
    lemma_align_up(fields_end(fields, i as nat), fields[i].align as nat);
    lemma_struct_align_positive(fields, fields.len());
    lemma_align_up(fields_end(fields, fields.len()), struct_align(fields, fields.len()));
    lemma_struct_align_grows(fields, (i + 1) as nat, fields.len());
    assert(align_up(0, fields[0].align as nat) == 0) by {
        assert(0nat % (fields[0].align as nat) == 0);
    }
}

proof fn lemma_struct_align_grows(fields: Seq<Field>, k: nat, n: nat)
    requires
        k <= n <= fields.len(),
    ensures
        struct_align(fields, k) <= struct_align(fields, n),
    decreases n - k,
{
    if k < n {
        lemma_struct_align_grows(fields, k, (n - 1) as nat);
    }
}

} // verus!
