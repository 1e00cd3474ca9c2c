use vstd::prelude::*;

verus! {

/// A formatter definition as configured for one run: the formatter's name,
/// its invocation spec (command, arguments, working directory) and its
/// ordered include/exclude pattern sets. A cache entry is meaningful only
/// against the byte-identical definition it was recorded under, so the
/// whole record takes part in equality.
pub struct FmtDef {
    pub name: String,
    pub command: String,
    pub args: Vec<String>,
    pub work_dir: String,
    pub includes: Vec<String>,
    pub excludes: Vec<String>,
}

/// The mathematical value of a formatter definition.
#[verifier::ext_equal]
pub ghost struct DefSpec {
    pub name: Seq<char>,
    pub command: Seq<char>,
    pub args: Seq<Seq<char>>,
    pub work_dir: Seq<char>,
    pub includes: Seq<Seq<char>>,
    pub excludes: Seq<Seq<char>>,
}

impl View for FmtDef {
    type V = DefSpec;

    open spec fn view(&self) -> DefSpec {
        DefSpec {
            name: self.name@,
            command: self.command@,
            args: self.args.deep_view(),
            work_dir: self.work_dir@,
            includes: self.includes.deep_view(),
            excludes: self.excludes.deep_view(),
        }
    }
}

/// Formatter names are pairwise distinct.
pub open spec fn def_names_unique(s: Seq<FmtDef>) -> bool {
    forall|i: int, j: int|
        0 <= i < j < s.len() ==> (#[trigger] s[i].name@) != (#[trigger] s[j].name@)
}

/// Element-wise equality of two string lists.
pub fn str_vec_eq(a: &Vec<String>, b: &Vec<String>) -> (r: bool)
    ensures
        r == (a.deep_view() == b.deep_view()),
{
    if a.len() != b.len() {
        assert(a.deep_view().len() != b.deep_view().len());
        return false;
    }
    let n = a.len();
    let mut i: usize = 0;
    while i < n
        invariant
            n == a@.len() == b@.len(),
            0 <= i <= n,
            forall|j: int| 0 <= j < i ==> a.deep_view()[j] == b.deep_view()[j],
        decreases n - i,
    {
        if a[i] != b[i] {
            assert(a.deep_view()[i as int] != b.deep_view()[i as int]);
            return false;
        }
        i += 1;
    }
    proof {
        assert(a.deep_view() =~= b.deep_view());
    }
    true
}

/// Byte-identical equality of two formatter definitions: the test that
/// decides whether a cached entry is still meaningful.
pub fn def_eq(a: &FmtDef, b: &FmtDef) -> (r: bool)
    ensures
        r == (a@ == b@),
{
    let r = a.name == b.name && a.command == b.command && a.work_dir == b.work_dir
        && str_vec_eq(&a.args, &b.args) && str_vec_eq(&a.includes, &b.includes)
        && str_vec_eq(&a.excludes, &b.excludes);
    proof {
        if r {
            assert(a@ =~= b@);
        }
    }
    r
}

/// Element-wise copy of a string list.
pub fn copy_str_vec(a: &Vec<String>) -> (r: Vec<String>)
    ensures
        r@ == a@,
{
    let mut r: Vec<String> = Vec::new();
    let n = a.len();
    let mut i: usize = 0;
    while i < n
        invariant
            n == a@.len(),
            0 <= i <= n,
            r@.len() == i,
            forall|j: int| 0 <= j < i ==> r@[j] == a@[j],
        decreases n - i,
    {
        r.push(a[i].clone());
        i += 1;
    }
    proof {
        assert(r@ =~= a@);
    }
    r
}

/// Copy of a formatter definition.
pub fn copy_def(d: &FmtDef) -> (r: FmtDef)
    ensures
        r@ == d@,
{
    let r = FmtDef {
        name: d.name.clone(),
        command: d.command.clone(),
        args: copy_str_vec(&d.args),
        work_dir: d.work_dir.clone(),
        includes: copy_str_vec(&d.includes),
        excludes: copy_str_vec(&d.excludes),
    };
    proof {
        assert(r@ =~= d@);
    }
    r
}

} // verus!
