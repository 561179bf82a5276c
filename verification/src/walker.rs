//! Collecting the files of a folder.
//!
//! The walk over the disk is driven from outside: the caller asks for the
//! next directory to list, reports each entry of that directory, and at the
//! end takes the files in path order. The walker decides which directories
//! are entered (hidden ones and `node_modules` are not, below the root) and
//! which entries are kept (regular files only; symbolic links and other
//! special entries are neither followed nor collected).

use vstd::prelude::*;
use crate::errors::{ErrorModel, SeyfrError};
use crate::paths::PathKind;

verus! {

broadcast use vstd::seq_lib::group_to_multiset_ensures;

/// The type of a directory entry, as the entry itself reports it (symbolic
/// links are not followed).
#[derive(Debug, Clone, Copy, PartialEq, Eq, Structural)]
pub enum EntryKind {
    Directory,
    File,
    /// A symbolic link or another special entry.
    Other,
}

/// The bytes of the name `node_modules`.
pub open spec fn node_modules() -> Seq<u8> {
    seq![110u8, 111u8, 100u8, 101u8, 95u8, 109u8, 111u8, 100u8, 117u8, 108u8, 101u8, 115u8]
}

/// A directory with this name is not entered: hidden directories (name
/// starting with `.`) and `node_modules`.
pub open spec fn is_skipped_dir(name: Seq<u8>) -> bool {
    (name.len() > 0 && name[0] == 46u8) || name == node_modules()
}

/// Every component of `p` names a directory that is entered.
pub open spec fn clean_dirs(p: Seq<Seq<u8>>) -> bool {
    forall|k: int| 0 <= k < p.len() ==> !is_skipped_dir(#[trigger] p[k])
}

/// Every directory on the way to the file `p` is entered.
pub open spec fn clean_parent(p: Seq<Seq<u8>>) -> bool {
    forall|k: int| 0 <= k < p.len() - 1 ==> !is_skipped_dir(#[trigger] p[k])
}

// ---------------------------------------------------------------------------
// Path order
// ---------------------------------------------------------------------------

/// Byte-wise lexicographic order of names.
pub open spec fn bytes_le(a: Seq<u8>, b: Seq<u8>) -> bool
    decreases a.len(),
{
    if a.len() == 0 {
        true
    } else if b.len() == 0 {
        false
    } else if a[0] != b[0] {
        a[0] < b[0]
    } else {
        bytes_le(a.drop_first(), b.drop_first())
    }
}

/// Component-wise lexicographic order of relative paths, the order of `PathBuf`.
pub open spec fn path_le(a: Seq<Seq<u8>>, b: Seq<Seq<u8>>) -> bool
    decreases a.len(),
{
    if a.len() == 0 {
        true
    } else if b.len() == 0 {
        false
    } else if a[0] != b[0] {
        bytes_le(a[0], b[0])
    } else {
        path_le(a.drop_first(), b.drop_first())
    }
}

pub open spec fn sorted_paths(s: Seq<Seq<Seq<u8>>>) -> bool {
    forall|i: int, j: int| 0 <= i < j < s.len() ==> path_le(#[trigger] s[i], #[trigger] s[j])
}

pub proof fn lemma_bytes_le_total(a: Seq<u8>, b: Seq<u8>)
    ensures
        bytes_le(a, b) || bytes_le(b, a),
        bytes_le(a, b) && bytes_le(b, a) ==> a == b,
    decreases a.len(),
{
    if a.len() > 0 && b.len() > 0 && a[0] == b[0] {
        lemma_bytes_le_total(a.drop_first(), b.drop_first());
        if bytes_le(a, b) && bytes_le(b, a) {
            assert(a =~= seq![a[0]] + a.drop_first());
            assert(b =~= seq![b[0]] + b.drop_first());
        }
    }
    if a.len() == 0 && b.len() == 0 {
        assert(a =~= b);
    }
}

pub proof fn lemma_bytes_le_trans(a: Seq<u8>, b: Seq<u8>, c: Seq<u8>)
    requires
        bytes_le(a, b),
        bytes_le(b, c),
    ensures
        bytes_le(a, c),
    decreases a.len(),
{
    if a.len() > 0 && b.len() > 0 && c.len() > 0 && a[0] == b[0] && b[0] == c[0] {
        lemma_bytes_le_trans(a.drop_first(), b.drop_first(), c.drop_first());
    }
}

/// The path order is total.
pub proof fn lemma_path_le_total(a: Seq<Seq<u8>>, b: Seq<Seq<u8>>)
    ensures
        path_le(a, b) || path_le(b, a),
    decreases a.len(),
{
    if a.len() > 0 && b.len() > 0 {
        if a[0] == b[0] {
            lemma_path_le_total(a.drop_first(), b.drop_first());
        } else {
            lemma_bytes_le_total(a[0], b[0]);
        }
    }
}

/// The path order is transitive.
pub proof fn lemma_path_le_trans(a: Seq<Seq<u8>>, b: Seq<Seq<u8>>, c: Seq<Seq<u8>>)
    requires
        path_le(a, b),
        path_le(b, c),
    ensures
        path_le(a, c),
    decreases a.len(),
{
    if a.len() > 0 && b.len() > 0 && c.len() > 0 {
        if a[0] == b[0] && b[0] == c[0] {
            lemma_path_le_trans(a.drop_first(), b.drop_first(), c.drop_first());
        } else if a[0] == b[0] {
        } else if b[0] == c[0] {
        } else {
            lemma_bytes_le_trans(a[0], b[0], c[0]);
            if a[0] == c[0] {
                lemma_bytes_le_total(a[0], b[0]);
            }
        }
    }
}

fn bytes_eq(a: &Vec<u8>, b: &Vec<u8>) -> (r: bool)
    ensures
        r == (a@ == b@),
{
    if a.len() != b.len() {
        return false;
    }
    let mut i: usize = 0;
    while i < a.len()
        invariant
            i <= a@.len(),
            a@.len() == b@.len(),
            forall|k: int| 0 <= k < i ==> a@[k] == b@[k],
        decreases a@.len() - i,
    {
        if a[i] != b[i] {
            return false;
        }
        i = i + 1;
    }
    assert(a@ =~= b@);
    true
}

fn bytes_le_exec(a: &Vec<u8>, b: &Vec<u8>) -> (r: bool)
    ensures
        r == bytes_le(a@, b@),
{
    let mut i: usize = 0;
    assert(a@.skip(0) =~= a@);
    assert(b@.skip(0) =~= b@);
    while i < a.len() && i < b.len() && a[i] == b[i]
        invariant
            i <= a@.len(),
            i <= b@.len(),
            bytes_le(a@, b@) == bytes_le(a@.skip(i as int), b@.skip(i as int)),
        decreases a@.len() - i,
    {
        assert(a@.skip(i as int).drop_first() =~= a@.skip(i + 1));
        assert(b@.skip(i as int).drop_first() =~= b@.skip(i + 1));
        i = i + 1;
    }
    if i == a.len() {
        true
    } else if i == b.len() {
        false
    } else {
        a[i] < b[i]
    }
}

fn path_le_exec(a: &Vec<Vec<u8>>, b: &Vec<Vec<u8>>) -> (r: bool)
    ensures
        r == path_le(a.deep_view(), b.deep_view()),
{
    let ghost av = a.deep_view();
    let ghost bv = b.deep_view();
    let mut i: usize = 0;
    assert(av.skip(0) =~= av);
    assert(bv.skip(0) =~= bv);
    while i < a.len() && i < b.len() && bytes_eq(&a[i], &b[i])
        invariant
            i <= a@.len(),
            i <= b@.len(),
            av == a.deep_view(),
            bv == b.deep_view(),
            path_le(av, bv) == path_le(av.skip(i as int), bv.skip(i as int)),
        decreases a@.len() - i,
    {
        assert(av[i as int] == a@[i as int]@);
        assert(bv[i as int] == b@[i as int]@);
        assert(av.skip(i as int).drop_first() =~= av.skip(i + 1));
        assert(bv.skip(i as int).drop_first() =~= bv.skip(i + 1));
        i = i + 1;
    }
    if i == a.len() {
        true
    } else if i == b.len() {
        false
    } else {
        assert(av[i as int] == a@[i as int]@);
        assert(bv[i as int] == b@[i as int]@);
        bytes_le_exec(&a[i], &b[i])
    }
}

/// Insert `x` into the sorted list `v`, after every element not above it.
fn insert_sorted(v: &mut Vec<Vec<Vec<u8>>>, x: Vec<Vec<u8>>)
    requires
        sorted_paths(old(v).deep_view()),
    ensures
        sorted_paths(final(v).deep_view()),
        final(v).deep_view().to_multiset() == old(v).deep_view().to_multiset().insert(x.deep_view()),
{
    let ghost s = v.deep_view();
    let ghost xv = x.deep_view();
    let mut j: usize = 0;
    while j < v.len() && path_le_exec(&v[j], &x)
        invariant
            j <= v@.len(),
            s == v.deep_view(),
            xv == x.deep_view(),
            forall|k: int| 0 <= k < j ==> path_le(#[trigger] s[k], xv),
        decreases v@.len() - j,
    {
        assert(s[j as int] == v@[j as int].deep_view());
        j = j + 1;
    }
    proof {
        if j < s.len() {
            assert(s[j as int] == v@[j as int].deep_view());
            lemma_path_le_total(s[j as int], xv);
        }
    }
    v.insert(j, x);
    proof {
        let t = v.deep_view();
        assert(t =~= s.insert(j as int, xv));
        assert forall|a: int, b: int| 0 <= a < b < t.len() implies path_le(
            #[trigger] t[a],
            #[trigger] t[b],
        ) by {
            if b < j {
            } else if a < j && b == j {
            } else if a < j && b > j {
                assert(path_le(s[a], xv));
                assert(path_le(xv, s[j as int]));
                lemma_path_le_trans(s[a], xv, s[j as int]);
                if b - 1 > j {
                    lemma_path_le_trans(s[a], s[j as int], s[b - 1]);
                }
            } else if a == j {
                if b - 1 > j {
                    lemma_path_le_trans(xv, s[j as int], s[b - 1]);
                }
            } else {
            }
        }
    }
}

// ---------------------------------------------------------------------------
// The walker
// ---------------------------------------------------------------------------

/// The walker's state: directories still to list, the directory being
/// listed, and the files found so far (paths relative to the root, as
/// sequences of name bytes).
pub struct WalkerModel {
    pub pending: Seq<Seq<Seq<u8>>>,
    pub current: Seq<Seq<u8>>,
    pub files: Seq<Seq<Seq<u8>>>,
}

pub struct Walker {
    pending: Vec<Vec<Vec<u8>>>,
    current: Vec<Vec<u8>>,
    files: Vec<Vec<Vec<u8>>>,
}

impl View for Walker {
    type V = WalkerModel;

    closed spec fn view(&self) -> WalkerModel {
        WalkerModel {
            pending: self.pending.deep_view(),
            current: self.current.deep_view(),
            files: self.files.deep_view(),
        }
    }
}

/// `p` followed by the component `name`.
pub open spec fn child(p: Seq<Seq<u8>>, name: Seq<u8>) -> Seq<Seq<u8>> {
    p.push(name)
}

pub open spec fn walk_start_spec(root: Seq<char>, kind: PathKind) -> Result<WalkerModel, ErrorModel> {
    match kind {
        PathKind::Missing { details } => Err(ErrorModel::Io { details: details@ }),
        PathKind::Unreadable { details } => Err(ErrorModel::Io { details: details@ }),
        PathKind::Directory => Ok(
            WalkerModel { pending: seq![Seq::empty()], current: Seq::empty(), files: Seq::empty() },
        ),
        _ => Err(ErrorModel::NotADirectory { path: root }),
    }
}

proof fn lemma_bytes_deep_view(v: Vec<u8>)
    ensures
        v.deep_view() == v@,
{
    assert(v.deep_view() =~= v@);
}

fn copy_path(p: &Vec<Vec<u8>>) -> (r: Vec<Vec<u8>>)
    ensures
        r.deep_view() == p.deep_view(),
{
    let mut r: Vec<Vec<u8>> = Vec::new();
    let mut i: usize = 0;
    while i < p.len()
        invariant
            i <= p@.len(),
            r.deep_view() == p.deep_view().subrange(0, i as int),
        decreases p@.len() - i,
    {
        let c = crate::hashseq::copy_bytes(&p[i]);
        proof {
            lemma_bytes_deep_view(c);
            lemma_bytes_deep_view(p@[i as int]);
        }
        let ghost prev = r.deep_view();
        r.push(c);
        assert(r.deep_view() =~= prev.push(p@[i as int]@));
        assert(p.deep_view()[i as int] == p@[i as int]@);
        i = i + 1;
        assert(r.deep_view() =~= p.deep_view().subrange(0, i as int));
    }
    assert(p.deep_view().subrange(0, i as int) =~= p.deep_view());
    r
}

/// Exactly two kinds of directory are left out: one whose name begins with
/// a dot (byte 46), and one named `node_modules` (these twelve bytes). Any
/// other name, a dot elsewhere in it included, is entered.
pub proof fn lemma_skip_rule(name: Seq<u8>)
    ensures
        is_skipped_dir(name) <==> ((name.len() > 0 && name[0] == 46u8) || name == seq![
            110u8,
            111u8,
            100u8,
            101u8,
            95u8,
            109u8,
            111u8,
            100u8,
            117u8,
            108u8,
            101u8,
            115u8,
        ]),
        name.len() > 0 && name[0] != 46u8 && name.len() != 12 ==> !is_skipped_dir(name),
{
}

/// Whether a directory with this name is left out of the walk.
pub fn should_skip_dir(name: &[u8]) -> (r: bool)
    ensures
        r == is_skipped_dir(name@),
        r <==> ((name@.len() > 0 && name@[0] == 46u8) || name@ == seq![
            110u8,
            111u8,
            100u8,
            101u8,
            95u8,
            109u8,
            111u8,
            100u8,
            117u8,
            108u8,
            101u8,
            115u8,
        ]),
{
    if name.len() > 0 && name[0] == 46u8 {
        return true;
    }
    let nm: [u8; 12] = [110u8, 111u8, 100u8, 101u8, 95u8, 109u8, 111u8, 100u8, 117u8, 108u8, 101u8, 115u8];
    assert(nm@ =~= node_modules());
    if name.len() != 12 {
        assert(name@ != node_modules());
        return false;
    }
    let mut i: usize = 0;
    while i < 12
        invariant
            i <= 12,
            name@.len() == 12,
            name@[0] != 46u8,
            nm@ == node_modules(),
            forall|k: int| 0 <= k < i ==> name@[k] == nm@[k],
        decreases 12 - i,
    {
        if name[i] != nm[i] {
            assert(name@[i as int] != nm@[i as int]);
            assert(name@ != node_modules());
            return false;
        }
        i = i + 1;
    }
    assert(name@ =~= node_modules());
    true
}

/// The bytes of a relative path, its components joined by `/`.
pub open spec fn joined(p: Seq<Seq<u8>>) -> Seq<u8>
    decreases p.len(),
{
    if p.len() == 0 {
        Seq::empty()
    } else if p.len() == 1 {
        p[0]
    } else {
        joined(p.drop_last()) + seq![47u8] + p.last()
    }
}

/// The bytes of a relative path, its components joined by `/`.
pub fn join_relative(p: &Vec<Vec<u8>>) -> (r: Vec<u8>)
    ensures
        r@ == joined(p.deep_view()),
{
    let mut out: Vec<u8> = Vec::new();
    let mut i: usize = 0;
    while i < p.len()
        invariant
            i <= p@.len(),
            out@ == joined(p.deep_view().subrange(0, i as int)),
        decreases p@.len() - i,
    {
        let ghost prev = p.deep_view().subrange(0, i as int);
        let ghost before = out@;
        if i > 0 {
            out.push(47u8);
        }
        let c = &p[i];
        let mut k: usize = 0;
        let ghost mid = out@;
        while k < c.len()
            invariant
                k <= c@.len(),
                out@ == mid + c@.subrange(0, k as int),
            decreases c@.len() - k,
        {
            out.push(c[k]);
            k = k + 1;
            assert(out@ =~= mid + c@.subrange(0, k as int));
        }
        proof {
            let next = p.deep_view().subrange(0, i + 1);
            assert(p.deep_view()[i as int] == c@);
            assert(next.drop_last() =~= prev);
            assert(c@.subrange(0, c@.len() as int) =~= c@);
            if i == 0 {
                assert(out@ =~= next[0]);
            } else {
                assert(out@ =~= joined(prev) + seq![47u8] + next.last());
            }
        }
        i = i + 1;
    }
    assert(p.deep_view().subrange(0, i as int) =~= p.deep_view());
    out
}

impl Walker {
    #[verifier::type_invariant]
    spec fn wf(self) -> bool {
        &&& forall|i: int|
            0 <= i < self.pending.deep_view().len() ==> clean_dirs(
                #[trigger] self.pending.deep_view()[i],
            )
        &&& clean_dirs(self.current.deep_view())
        &&& forall|i: int|
            0 <= i < self.files.deep_view().len() ==> clean_parent(
                #[trigger] self.files.deep_view()[i],
            )
    }

    /// Begin a walk at `root`, given what the disk says about it.
    pub fn start(root: &str, kind: &PathKind) -> (r: Result<Walker, SeyfrError>)
        ensures
            match (r, walk_start_spec(root@, *kind)) {
                (Ok(w), Ok(m)) => w@ == m,
                (Err(e), Err(m)) => e@ == m,
                _ => false,
            },
    {
        match kind {
            PathKind::Missing { details } => Err(
                SeyfrError::Io { details: String::from_str(details.as_str()) },
            ),
            PathKind::Unreadable { details } => Err(
                SeyfrError::Io { details: String::from_str(details.as_str()) },
            ),
            PathKind::Directory => {
                let mut pending: Vec<Vec<Vec<u8>>> = Vec::new();
                let root: Vec<Vec<u8>> = Vec::new();
                assert(root.deep_view() =~= Seq::<Seq<u8>>::empty());
                pending.push(root);
                let w = Walker { pending, current: Vec::new(), files: Vec::new() };
                assert(w@.pending =~= seq![Seq::<Seq<u8>>::empty()]);
                assert(w@.current =~= Seq::<Seq<u8>>::empty());
                assert(w@.files =~= Seq::<Seq<Seq<u8>>>::empty());
                Ok(w)
            },
            _ => Err(SeyfrError::NotADirectory { path: String::from_str(root) }),
        }
    }

    /// Take the next directory to list (the most recently scheduled one) and
    /// make it the current directory; `None` when the walk is over.
    pub fn next_dir(&mut self) -> (r: Option<Vec<Vec<u8>>>)
        ensures
            old(self)@.pending.len() == 0 ==> r is None && final(self)@ == old(self)@,
            old(self)@.pending.len() > 0 ==> {
                &&& r is Some
                &&& r->0.deep_view() == old(self)@.pending.last()
                &&& final(self)@ == (WalkerModel {
                    pending: old(self)@.pending.drop_last(),
                    current: old(self)@.pending.last(),
                    files: old(self)@.files,
                })
            },
    {
        proof {
            use_type_invariant(&*self);
        }
        let ghost pv = self.pending.deep_view();
        let mut pending: Vec<Vec<Vec<u8>>> = Vec::new();
        std::mem::swap(&mut pending, &mut self.pending);
        match pending.pop() {
            None => {
                std::mem::swap(&mut pending, &mut self.pending);
                None
            },
            Some(dir) => {
                assert(pending.deep_view() =~= pv.drop_last());
                assert(dir.deep_view() == pv.last());
                let copy = copy_path(&dir);
                let mut files: Vec<Vec<Vec<u8>>> = Vec::new();
                std::mem::swap(&mut files, &mut self.files);
                *self = Walker { pending, current: dir, files };
                Some(copy)
            },
        }
    }

    /// Report one entry of the current directory.
    pub fn visit(&mut self, name: Vec<u8>, kind: EntryKind)
        ensures
            final(self)@.current == old(self)@.current,
            kind == EntryKind::Directory && !is_skipped_dir(name@) ==> final(self)@ == (WalkerModel {
                pending: old(self)@.pending.push(child(old(self)@.current, name@)),
                current: old(self)@.current,
                files: old(self)@.files,
            }),
            kind == EntryKind::File ==> final(self)@ == (WalkerModel {
                pending: old(self)@.pending,
                current: old(self)@.current,
                files: old(self)@.files.push(child(old(self)@.current, name@)),
            }),
            kind == EntryKind::Other || (kind == EntryKind::Directory && is_skipped_dir(name@))
                ==> final(self)@ == old(self)@,
            final(self)@ == visit_model(old(self)@, name@, kind),
    {
        proof {
            use_type_invariant(&*self);
        }
        let ghost cur = self.current.deep_view();
        let ghost nv = name@;
        proof {
            lemma_bytes_deep_view(name);
        }
        match kind {
            EntryKind::Directory => {
                if !should_skip_dir(name.as_slice()) {
                    let mut p = copy_path(&self.current);
                    p.push(name);
                    assert(p.deep_view() =~= cur.push(nv));
                    let ghost prev = self.pending.deep_view();
                    let mut pending: Vec<Vec<Vec<u8>>> = Vec::new();
                    std::mem::swap(&mut pending, &mut self.pending);
                    pending.push(p);
                    assert(pending.deep_view() =~= prev.push(cur.push(nv)));
                    std::mem::swap(&mut pending, &mut self.pending);
                }
            },
            EntryKind::File => {
                let mut p = copy_path(&self.current);
                p.push(name);
                assert(p.deep_view() =~= cur.push(nv));
                let ghost prev = self.files.deep_view();
                let mut files: Vec<Vec<Vec<u8>>> = Vec::new();
                std::mem::swap(&mut files, &mut self.files);
                files.push(p);
                assert(files.deep_view() =~= prev.push(cur.push(nv)));
                std::mem::swap(&mut files, &mut self.files);
            },
            EntryKind::Other => {},
        }
    }

    /// End the walk: the files found, in path order.
    pub fn finish(self) -> (r: Vec<Vec<Vec<u8>>>)
        ensures
            sorted_paths(r.deep_view()),
            r.deep_view().to_multiset() == self@.files.to_multiset(),
            forall|i: int| 0 <= i < r.deep_view().len() ==> clean_parent(#[trigger] r.deep_view()[i]),
    {
        proof {
            use_type_invariant(&self);
        }
        let files = self.files;
        let ghost fv = files.deep_view();
        let mut out: Vec<Vec<Vec<u8>>> = Vec::new();
        let mut i: usize = 0;
        while i < files.len()
            invariant
                i <= files@.len(),
                fv == files.deep_view(),
                forall|k: int| 0 <= k < fv.len() ==> clean_parent(#[trigger] fv[k]),
                sorted_paths(out.deep_view()),
                out.deep_view().to_multiset() == fv.subrange(0, i as int).to_multiset(),
            decreases files@.len() - i,
        {
            let x = copy_path(&files[i]);
            assert(fv[i as int] == files@[i as int].deep_view());
            insert_sorted(&mut out, x);
            assert(fv.subrange(0, i + 1) =~= fv.subrange(0, i as int).push(fv[i as int]));
            i = i + 1;
        }
        assert(fv.subrange(0, i as int) =~= fv);
        proof {
            let ov = out.deep_view();
            assert forall|k: int| 0 <= k < ov.len() implies clean_parent(#[trigger] ov[k]) by {
                assert(ov.to_multiset().count(ov[k]) > 0);
                assert(fv.to_multiset().count(ov[k]) > 0);
                assert(fv.contains(ov[k]));
            }
        }
        out
    }
}

// ---------------------------------------------------------------------------
// The whole walk
// ---------------------------------------------------------------------------

/// The state after reporting one entry of the current directory.
pub open spec fn visit_model(m: WalkerModel, name: Seq<u8>, kind: EntryKind) -> WalkerModel {
    match kind {
        EntryKind::Directory => if is_skipped_dir(name) {
            m
        } else {
            WalkerModel {
                pending: m.pending.push(child(m.current, name)),
                current: m.current,
                files: m.files,
            }
        },
        EntryKind::File => WalkerModel {
            pending: m.pending,
            current: m.current,
            files: m.files.push(child(m.current, name)),
        },
        EntryKind::Other => m,
    }
}

/// The state after reporting, in order, the entries of a listing of the
/// whole tree (directory, name, kind) that belong to the current directory.
pub open spec fn list_entries(
    m: WalkerModel,
    l: Seq<(Seq<Seq<u8>>, Seq<u8>, EntryKind)>,
) -> WalkerModel
    decreases l.len(),
{
    if l.len() == 0 {
        m
    } else {
        let prev = list_entries(m, l.drop_last());
        let e = l.last();
        if e.0 == m.current {
            visit_model(prev, e.1, e.2)
        } else {
            prev
        }
    }
}

/// One round of the walk: take the next directory and report its entries.
pub open spec fn walk_step(m: WalkerModel, l: Seq<(Seq<Seq<u8>>, Seq<u8>, EntryKind)>) -> WalkerModel {
    if m.pending.len() == 0 {
        m
    } else {
        list_entries(
            WalkerModel {
                pending: m.pending.drop_last(),
                current: m.pending.last(),
                files: m.files,
            },
            l,
        )
    }
}

/// `n` rounds of the walk.
pub open spec fn walk_run(
    m: WalkerModel,
    l: Seq<(Seq<Seq<u8>>, Seq<u8>, EntryKind)>,
    n: nat,
) -> WalkerModel
    decreases n,
{
    if n == 0 {
        m
    } else {
        walk_run(walk_step(m, l), l, (n - 1) as nat)
    }
}

/// The state of a walk that has just begun at a directory.
pub open spec fn walk_begin() -> WalkerModel {
    WalkerModel { pending: seq![Seq::empty()], current: Seq::empty(), files: Seq::empty() }
}

/// A directory of the tree that the walk enters: the root, and every
/// directory listed in an entered directory under a name that is not skipped.
pub open spec fn entered(l: Seq<(Seq<Seq<u8>>, Seq<u8>, EntryKind)>, d: Seq<Seq<u8>>) -> bool
    decreases d.len(),
{
    if d.len() == 0 {
        true
    } else {
        entered(l, d.drop_last()) && !is_skipped_dir(d.last()) && l.contains(
            (d.drop_last(), d.last(), EntryKind::Directory),
        )
    }
}

/// The files that a folder transfer shares: every regular file listed in an
/// entered directory.
pub open spec fn shared_files(l: Seq<(Seq<Seq<u8>>, Seq<u8>, EntryKind)>) -> Set<Seq<Seq<u8>>> {
    Set::new(
        |p: Seq<Seq<u8>>|
            p.len() > 0 && entered(l, p.drop_last()) && l.contains(
                (p.drop_last(), p.last(), EntryKind::File),
            ),
    )
}

/// Within one directory, names are unique.
pub open spec fn unique_names(l: Seq<(Seq<Seq<u8>>, Seq<u8>, EntryKind)>) -> bool {
    forall|i: int, j: int|
        0 <= i < j < l.len() ==> (#[trigger] l[i]).0 != (#[trigger] l[j]).0 || l[i].1 != l[j].1
}


/// The directories scheduled while listing `d`, in listing order.
spec fn new_dirs(l: Seq<(Seq<Seq<u8>>, Seq<u8>, EntryKind)>, d: Seq<Seq<u8>>) -> Seq<Seq<Seq<u8>>>
    decreases l.len(),
{
    if l.len() == 0 {
        Seq::empty()
    } else {
        let prev = new_dirs(l.drop_last(), d);
        let e = l.last();
        if e.0 == d && e.2 == EntryKind::Directory && !is_skipped_dir(e.1) {
            prev.push(d.push(e.1))
        } else {
            prev
        }
    }
}

/// The files found while listing `d`, in listing order.
spec fn new_files(l: Seq<(Seq<Seq<u8>>, Seq<u8>, EntryKind)>, d: Seq<Seq<u8>>) -> Seq<Seq<Seq<u8>>>
    decreases l.len(),
{
    if l.len() == 0 {
        Seq::empty()
    } else {
        let prev = new_files(l.drop_last(), d);
        let e = l.last();
        if e.0 == d && e.2 == EntryKind::File {
            prev.push(d.push(e.1))
        } else {
            prev
        }
    }
}

proof fn lemma_list_entries(m: WalkerModel, l: Seq<(Seq<Seq<u8>>, Seq<u8>, EntryKind)>)
    ensures
        list_entries(m, l) == (WalkerModel {
            pending: m.pending + new_dirs(l, m.current),
            current: m.current,
            files: m.files + new_files(l, m.current),
        }),
    decreases l.len(),
{
    if l.len() == 0 {
        assert(m.pending + new_dirs(l, m.current) =~= m.pending);
        assert(m.files + new_files(l, m.current) =~= m.files);
    } else {
        lemma_list_entries(m, l.drop_last());
        let prev_d = new_dirs(l.drop_last(), m.current);
        let prev_f = new_files(l.drop_last(), m.current);
        assert((m.pending + prev_d).push(m.current.push(l.last().1)) =~= m.pending + prev_d.push(
            m.current.push(l.last().1),
        ));
        assert((m.files + prev_f).push(m.current.push(l.last().1)) =~= m.files + prev_f.push(
            m.current.push(l.last().1),
        ));
    }
}

proof fn lemma_contains_split<A>(s: Seq<A>, t: A)
    requires
        s.len() > 0,
    ensures
        s.contains(t) <==> (s.drop_last().contains(t) || s.last() == t),
{
    assert(s =~= s.drop_last().push(s.last()));
    vstd::seq_lib::lemma_seq_contains_after_push(s.drop_last(), s.last(), t);
}

proof fn lemma_push_no_dup<A>(s: Seq<A>, a: A)
    requires
        s.no_duplicates(),
        !s.contains(a),
    ensures
        s.push(a).no_duplicates(),
{
    let t = s.push(a);
    assert forall|i: int, j: int| 0 <= i < t.len() && 0 <= j < t.len() && i != j implies t[i] != t[j] by {
        if j == s.len() {
            assert(s.contains(s[i]));
        } else if i == s.len() {
            assert(s.contains(s[j]));
        }
    }
}

proof fn lemma_new_dirs_contains(
    l: Seq<(Seq<Seq<u8>>, Seq<u8>, EntryKind)>,
    d: Seq<Seq<u8>>,
    x: Seq<Seq<u8>>,
)
    ensures
        new_dirs(l, d).contains(x) <==> (x.len() > 0 && x.drop_last() == d && !is_skipped_dir(x.last())
            && l.contains((d, x.last(), EntryKind::Directory))),
    decreases l.len(),
{
    if l.len() > 0 {
        let l2 = l.drop_last();
        let e = l.last();
        let y = d.push(e.1);
        lemma_new_dirs_contains(l2, d, x);
        lemma_contains_split(l, (d, x.last(), EntryKind::Directory));
        assert(y.drop_last() =~= d);
        if x.len() > 0 {
            assert(x =~= x.drop_last().push(x.last()));
        }
        if e.0 == d && e.2 == EntryKind::Directory && !is_skipped_dir(e.1) {
            vstd::seq_lib::lemma_seq_contains_after_push(new_dirs(l2, d), y, x);
        }
    }
}

proof fn lemma_new_files_contains(
    l: Seq<(Seq<Seq<u8>>, Seq<u8>, EntryKind)>,
    d: Seq<Seq<u8>>,
    x: Seq<Seq<u8>>,
)
    ensures
        new_files(l, d).contains(x) <==> (x.len() > 0 && x.drop_last() == d && l.contains(
            (d, x.last(), EntryKind::File),
        )),
    decreases l.len(),
{
    if l.len() > 0 {
        let l2 = l.drop_last();
        let e = l.last();
        let y = d.push(e.1);
        lemma_new_files_contains(l2, d, x);
        lemma_contains_split(l, (d, x.last(), EntryKind::File));
        assert(y.drop_last() =~= d);
        if x.len() > 0 {
            assert(x =~= x.drop_last().push(x.last()));
        }
        if e.0 == d && e.2 == EntryKind::File {
            vstd::seq_lib::lemma_seq_contains_after_push(new_files(l2, d), y, x);
        }
    }
}

proof fn lemma_unique_prefix(l: Seq<(Seq<Seq<u8>>, Seq<u8>, EntryKind)>)
    requires
        unique_names(l),
        l.len() > 0,
    ensures
        unique_names(l.drop_last()),
{
    let l2 = l.drop_last();
    assert forall|i: int, j: int| 0 <= i < j < l2.len() implies (#[trigger] l2[i]).0 != (
    #[trigger] l2[j]).0 || l2[i].1 != l2[j].1 by {
        assert(l2[i] == l[i]);
        assert(l2[j] == l[j]);
    }
}

proof fn lemma_new_unique(l: Seq<(Seq<Seq<u8>>, Seq<u8>, EntryKind)>, d: Seq<Seq<u8>>)
    requires
        unique_names(l),
    ensures
        new_dirs(l, d).no_duplicates(),
        new_files(l, d).no_duplicates(),
    decreases l.len(),
{
    if l.len() > 0 {
        let l2 = l.drop_last();
        let e = l.last();
        let y = d.push(e.1);
        lemma_unique_prefix(l);
        lemma_new_unique(l2, d);
        assert(y.drop_last() =~= d);
        assert(l[l.len() - 1] == e);
        if e.0 == d && e.2 == EntryKind::Directory && !is_skipped_dir(e.1) {
            lemma_new_dirs_contains(l2, d, y);
            if new_dirs(l2, d).contains(y) {
                let j = choose|j: int| 0 <= j < l2.len() && l2[j] == (d, e.1, EntryKind::Directory);
                assert(l[j] == l2[j]);
                assert(l[j].0 == l[l.len() - 1].0 && l[j].1 == l[l.len() - 1].1);
            }
            lemma_push_no_dup(new_dirs(l2, d), y);
        }
        if e.0 == d && e.2 == EntryKind::File {
            lemma_new_files_contains(l2, d, y);
            if new_files(l2, d).contains(y) {
                let j = choose|j: int| 0 <= j < l2.len() && l2[j] == (d, e.1, EntryKind::File);
                assert(l[j] == l2[j]);
                assert(l[j].0 == l[l.len() - 1].0 && l[j].1 == l[l.len() - 1].1);
            }
            lemma_push_no_dup(new_files(l2, d), y);
        }
    }
}

proof fn lemma_entered_prefix(l: Seq<(Seq<Seq<u8>>, Seq<u8>, EntryKind)>, r: Seq<Seq<u8>>, k: int)
    requires
        entered(l, r),
        0 <= k <= r.len(),
    ensures
        entered(l, r.take(k)),
    decreases r.len(),
{
    if k < r.len() {
        assert(r.drop_last().take(k) =~= r.take(k));
        lemma_entered_prefix(l, r.drop_last(), k);
    } else {
        assert(r.take(k) =~= r);
    }
}

/// Candidate directories: the root and every path named by an entry.
spec fn candidates(l: Seq<(Seq<Seq<u8>>, Seq<u8>, EntryKind)>) -> Set<Seq<Seq<u8>>> {
    Set::new(
        |p: Seq<Seq<u8>>|
            p.len() == 0 || (exists|i: int| 0 <= i < l.len() && #[trigger] l[i].0.push(l[i].1) == p),
    )
}

proof fn lemma_candidates_finite(l: Seq<(Seq<Seq<u8>>, Seq<u8>, EntryKind)>)
    ensures
        candidates(l).finite(),
    decreases l.len(),
{
    if l.len() == 0 {
        assert(candidates(l) =~= set![Seq::<Seq<u8>>::empty()]) by {
            assert forall|p: Seq<Seq<u8>>| #[trigger] candidates(l).contains(p) implies p == Seq::<
                Seq<u8>,
            >::empty() by {
                assert(p =~= Seq::<Seq<u8>>::empty());
            }
        }
    } else {
        lemma_candidates_finite(l.drop_last());
        let e = l.last();
        assert(candidates(l) =~= candidates(l.drop_last()).insert(e.0.push(e.1))) by {
            assert forall|p: Seq<Seq<u8>>| #[trigger] candidates(l).contains(p) implies candidates(
                l.drop_last(),
            ).insert(e.0.push(e.1)).contains(p) by {
                if p.len() != 0 {
                    let i = choose|i: int| 0 <= i < l.len() && #[trigger] l[i].0.push(l[i].1) == p;
                    if i < l.len() - 1 {
                        assert(l.drop_last()[i] == l[i]);
                    }
                }
            }
            assert forall|p: Seq<Seq<u8>>| #[trigger] candidates(l.drop_last()).contains(p) implies candidates(
                l,
            ).contains(p) by {
                if p.len() != 0 {
                    let i = choose|i: int|
                        0 <= i < l.drop_last().len() && #[trigger] l.drop_last()[i].0.push(
                            l.drop_last()[i].1,
                        ) == p;
                    assert(l.drop_last()[i] == l[i]);
                }
            }
            assert(candidates(l).contains(e.0.push(e.1))) by {
                assert(l[l.len() - 1].0.push(l[l.len() - 1].1) == e.0.push(e.1));
            }
        }
    }
}

proof fn lemma_entered_candidate(l: Seq<(Seq<Seq<u8>>, Seq<u8>, EntryKind)>, d: Seq<Seq<u8>>)
    requires
        entered(l, d),
    ensures
        candidates(l).contains(d),
{
    if d.len() > 0 {
        let i = choose|i: int|
            0 <= i < l.len() && l[i] == (d.drop_last(), d.last(), EntryKind::Directory);
        assert(d.drop_last().push(d.last()) =~= d);
        assert(l[i].0.push(l[i].1) == d);
    }
}

/// What holds of the directories at every round of the walk, with `done`
/// the directories listed so far.
spec fn dirs_inv(
    pending: Seq<Seq<Seq<u8>>>,
    done: Set<Seq<Seq<u8>>>,
    l: Seq<(Seq<Seq<u8>>, Seq<u8>, EntryKind)>,
) -> bool {
    &&& done.finite()
    &&& forall|p: Seq<Seq<u8>>| #[trigger] done.contains(p) ==> entered(l, p)
    &&& forall|p: Seq<Seq<u8>>| #[trigger] pending.contains(p) ==> entered(l, p) && !done.contains(p)
    &&& pending.no_duplicates()
    &&& forall|r: Seq<Seq<u8>>|
        #[trigger] entered(l, r) && !done.contains(r) ==> exists|k: int|
            0 <= k <= r.len() && #[trigger] pending.contains(r.take(k))
    &&& forall|p: Seq<Seq<u8>>| #[trigger] pending.contains(p) && p.len() > 0 ==> done.contains(p.drop_last())
    &&& forall|p: Seq<Seq<u8>>|
        #![trigger done.contains(p.drop_last())]
        done.contains(p) && p.len() > 0 ==> done.contains(p.drop_last())
}

/// What holds of the files at every round of the walk.
spec fn files_inv(
    files: Seq<Seq<Seq<u8>>>,
    done: Set<Seq<Seq<u8>>>,
    l: Seq<(Seq<Seq<u8>>, Seq<u8>, EntryKind)>,
) -> bool {
    &&& files.no_duplicates()
    &&& forall|f: Seq<Seq<u8>>|
        #[trigger] files.contains(f) <==> (f.len() > 0 && done.contains(f.drop_last()) && l.contains(
            (f.drop_last(), f.last(), EntryKind::File),
        ))
}

spec fn walk_inv(
    m: WalkerModel,
    done: Set<Seq<Seq<u8>>>,
    l: Seq<(Seq<Seq<u8>>, Seq<u8>, EntryKind)>,
) -> bool {
    dirs_inv(m.pending, done, l) && files_inv(m.files, done, l)
}

proof fn lemma_walk_inv_start(l: Seq<(Seq<Seq<u8>>, Seq<u8>, EntryKind)>)
    ensures
        walk_inv(walk_begin(), Set::empty(), l),
{
    let m = walk_begin();
    let done = Set::<Seq<Seq<u8>>>::empty();
    assert forall|p: Seq<Seq<u8>>| #[trigger] m.pending.contains(p) implies p == Seq::<Seq<u8>>::empty() by {
        assert(p == m.pending[0]);
    }
    assert forall|r: Seq<Seq<u8>>| #[trigger] entered(l, r) && !done.contains(r) implies exists|k: int|
        0 <= k <= r.len() && #[trigger] m.pending.contains(r.take(k)) by {
        assert(r.take(0) =~= Seq::<Seq<u8>>::empty());
        assert(m.pending[0] == r.take(0));
        assert(m.pending.contains(r.take(0)));
    }
}

/// The directories waiting after one round of the walk.
spec fn step_pending(pending: Seq<Seq<Seq<u8>>>, l: Seq<(Seq<Seq<u8>>, Seq<u8>, EntryKind)>) -> Seq<
    Seq<Seq<u8>>,
> {
    pending.drop_last() + new_dirs(l, pending.last())
}

proof fn lemma_step_members(
    pending: Seq<Seq<Seq<u8>>>,
    done: Set<Seq<Seq<u8>>>,
    l: Seq<(Seq<Seq<u8>>, Seq<u8>, EntryKind)>,
)
    requires
        dirs_inv(pending, done, l),
        pending.len() > 0,
    ensures
        pending.contains(pending.last()),
        !done.contains(pending.last()),
        entered(l, pending.last()),
        forall|p: Seq<Seq<u8>>|
            #[trigger] step_pending(pending, l).contains(p) <==> (pending.contains(p) && p
                != pending.last()) || new_dirs(l, pending.last()).contains(p),
        forall|p: Seq<Seq<u8>>|
            #[trigger] new_dirs(l, pending.last()).contains(p) ==> p.len() > 0 && p.drop_last()
                == pending.last() && entered(l, p) && !done.contains(p),
{
    let d = pending.last();
    let rest = pending.drop_last();
    let nd = new_dirs(l, d);
    assert(pending.contains(d)) by {
        assert(pending[pending.len() - 1] == d);
    }
    assert forall|p: Seq<Seq<u8>>| #[trigger] rest.contains(p) implies p != d by {
        let i = choose|i: int| 0 <= i < rest.len() && rest[i] == p;
        assert(pending[i] == p);
        assert(pending[pending.len() - 1] == d);
    }
    assert forall|p: Seq<Seq<u8>>| #[trigger] step_pending(pending, l).contains(p) <==> (
    pending.contains(p) && p != d) || nd.contains(p) by {
        vstd::seq_lib::lemma_seq_concat_contains_all_elements(rest, nd, p);
        lemma_contains_split(pending, p);
    }
    assert forall|p: Seq<Seq<u8>>| #[trigger] nd.contains(p) implies p.len() > 0 && p.drop_last() == d
        && entered(l, p) && !done.contains(p) by {
        lemma_new_dirs_contains(l, d, p);
        assert(p =~= p.drop_last().push(p.last()));
        if done.contains(p) {
            assert(done.contains(p.drop_last()));
        }
    }
}

proof fn lemma_step_no_dup(
    pending: Seq<Seq<Seq<u8>>>,
    done: Set<Seq<Seq<u8>>>,
    l: Seq<(Seq<Seq<u8>>, Seq<u8>, EntryKind)>,
)
    requires
        dirs_inv(pending, done, l),
        unique_names(l),
        pending.len() > 0,
    ensures
        step_pending(pending, l).no_duplicates(),
{
    let d = pending.last();
    let rest = pending.drop_last();
    let nd = new_dirs(l, d);
    lemma_step_members(pending, done, l);
    lemma_new_unique(l, d);
    assert forall|i: int, j: int|
        0 <= i < rest.len() && 0 <= j < rest.len() && i != j implies rest[i] != rest[j] by {
        assert(rest[i] == pending[i] && rest[j] == pending[j]);
    }
    assert forall|i: int, j: int| 0 <= i < rest.len() && 0 <= j < nd.len() implies rest[i]
        != nd[j] by {
        assert(pending[i] == rest[i]);
        assert(pending.contains(rest[i]));
        assert(nd.contains(nd[j]));
        if rest[i] == nd[j] {
            assert(done.contains(rest[i].drop_last()));
        }
    }
    vstd::seq_lib::lemma_no_dup_in_concat(rest, nd);
}

proof fn lemma_step_reach(
    pending: Seq<Seq<Seq<u8>>>,
    done: Set<Seq<Seq<u8>>>,
    l: Seq<(Seq<Seq<u8>>, Seq<u8>, EntryKind)>,
)
    requires
        pending.len() > 0,
        forall|r: Seq<Seq<u8>>|
            #[trigger] entered(l, r) && !done.contains(r) ==> exists|k: int|
                0 <= k <= r.len() && #[trigger] pending.contains(r.take(k)),
        forall|p: Seq<Seq<u8>>|
            #[trigger] step_pending(pending, l).contains(p) <==> (pending.contains(p) && p
                != pending.last()) || new_dirs(l, pending.last()).contains(p),
    ensures
        forall|r: Seq<Seq<u8>>|
            #[trigger] entered(l, r) && !done.insert(pending.last()).contains(r) ==> exists|k: int|
                0 <= k <= r.len() && #[trigger] step_pending(pending, l).contains(r.take(k)),
{
    let d = pending.last();
    let p2 = step_pending(pending, l);
    assert forall|r: Seq<Seq<u8>>| #[trigger] entered(l, r) && !done.insert(d).contains(
        r,
    ) implies exists|k: int| 0 <= k <= r.len() && #[trigger] p2.contains(r.take(k)) by {
        let k = choose|k: int| 0 <= k <= r.len() && #[trigger] pending.contains(r.take(k));
        if r.take(k) != d {
            assert(p2.contains(r.take(k)));
        } else {
            if k == r.len() {
                assert(r.take(k) =~= r);
            }
            let c = r.take(k + 1);
            lemma_entered_prefix(l, r, k + 1);
            assert(c.drop_last() =~= r.take(k));
            assert(c.last() == r[k]);
            lemma_new_dirs_contains(l, d, c);
            assert(p2.contains(r.take(k + 1)));
        }
    }
}

proof fn lemma_dirs_step(
    pending: Seq<Seq<Seq<u8>>>,
    done: Set<Seq<Seq<u8>>>,
    l: Seq<(Seq<Seq<u8>>, Seq<u8>, EntryKind)>,
)
    requires
        dirs_inv(pending, done, l),
        unique_names(l),
        pending.len() > 0,
    ensures
        dirs_inv(step_pending(pending, l), done.insert(pending.last()), l),
        !done.contains(pending.last()),
        entered(l, pending.last()),
{
    let d = pending.last();
    let p2 = step_pending(pending, l);
    let done2 = done.insert(d);
    lemma_step_members(pending, done, l);
    lemma_step_no_dup(pending, done, l);
    lemma_step_reach(pending, done, l);
    assert forall|p: Seq<Seq<u8>>| #[trigger] p2.contains(p) implies entered(l, p) && !done2.contains(
        p,
    ) by {
        if !new_dirs(l, d).contains(p) {
            assert(pending.contains(p));
        }
    }
    assert forall|p: Seq<Seq<u8>>| #[trigger] p2.contains(p) && p.len() > 0 implies done2.contains(
        p.drop_last(),
    ) by {
        if !new_dirs(l, d).contains(p) {
            assert(pending.contains(p));
        }
    }
    assert forall|p: Seq<Seq<u8>>|
        #![trigger done2.contains(p.drop_last())]
        done2.contains(p) && p.len() > 0 implies done2.contains(p.drop_last()) by {
        if p == d {
            assert(pending.contains(d));
        } else {
            assert(done.contains(p.drop_last()));
        }
    }
}

proof fn lemma_files_step(
    files: Seq<Seq<Seq<u8>>>,
    done: Set<Seq<Seq<u8>>>,
    l: Seq<(Seq<Seq<u8>>, Seq<u8>, EntryKind)>,
    d: Seq<Seq<u8>>,
)
    requires
        files_inv(files, done, l),
        !done.contains(d),
        unique_names(l),
    ensures
        files_inv(files + new_files(l, d), done.insert(d), l),
{
    let nf = new_files(l, d);
    let f2 = files + nf;
    let done2 = done.insert(d);
    lemma_new_unique(l, d);
    assert forall|i: int, j: int| 0 <= i < files.len() && 0 <= j < nf.len() implies files[i]
        != nf[j] by {
        assert(files.contains(files[i]));
        assert(nf.contains(nf[j]));
        lemma_new_files_contains(l, d, nf[j]);
    }
    vstd::seq_lib::lemma_no_dup_in_concat(files, nf);
    assert forall|f: Seq<Seq<u8>>| #[trigger] f2.contains(f) <==> (f.len() > 0 && done2.contains(
        f.drop_last(),
    ) && l.contains((f.drop_last(), f.last(), EntryKind::File))) by {
        vstd::seq_lib::lemma_seq_concat_contains_all_elements(files, nf, f);
        lemma_new_files_contains(l, d, f);
    }
}

proof fn lemma_walk_inv_step(
    m: WalkerModel,
    done: Set<Seq<Seq<u8>>>,
    l: Seq<(Seq<Seq<u8>>, Seq<u8>, EntryKind)>,
)
    requires
        walk_inv(m, done, l),
        unique_names(l),
        m.pending.len() > 0,
    ensures
        walk_inv(walk_step(m, l), done.insert(m.pending.last()), l),
        !done.contains(m.pending.last()),
        entered(l, m.pending.last()),
{
    let d = m.pending.last();
    let m0 = WalkerModel { pending: m.pending.drop_last(), current: d, files: m.files };
    lemma_list_entries(m0, l);
    lemma_dirs_step(m.pending, done, l);
    lemma_files_step(m.files, done, l, d);
}

proof fn lemma_walk_finishes(
    m: WalkerModel,
    done: Set<Seq<Seq<u8>>>,
    l: Seq<(Seq<Seq<u8>>, Seq<u8>, EntryKind)>,
) -> (res: (nat, Set<Seq<Seq<u8>>>))
    requires
        walk_inv(m, done, l),
        unique_names(l),
    ensures
        walk_run(m, l, res.0).pending.len() == 0,
        walk_inv(walk_run(m, l, res.0), res.1, l),
    decreases candidates(l).difference(done).len(),
{
    lemma_candidates_finite(l);
    if m.pending.len() == 0 {
        (0, done)
    } else {
        let d = m.pending.last();
        lemma_walk_inv_step(m, done, l);
        lemma_entered_candidate(l, d);
        let done2 = done.insert(d);
        assert(candidates(l).difference(done2) =~= candidates(l).difference(done).remove(d));
        let (n, fin) = lemma_walk_finishes(walk_step(m, l), done2, l);
        assert(walk_run(m, l, n + 1) == walk_run(walk_step(m, l), l, n));
        ((n + 1) as nat, fin)
    }
}

/// A folder transfer shares every regular file of the folder that does not
/// lie under a hidden directory or a `node_modules` directory (the folder
/// itself is entered whatever its name), each once: when the entries of each
/// directory are reported as the walk lists it, the walk ends, and the files
/// it has gathered are exactly the shared files, without repetition.
pub proof fn lemma_walk_collects_shared_files(l: Seq<(Seq<Seq<u8>>, Seq<u8>, EntryKind)>)
    requires
        unique_names(l),
    ensures
        exists|n: nat|
            {
                let end = #[trigger] walk_run(walk_begin(), l, n);
                &&& end.pending.len() == 0
                &&& end.files.no_duplicates()
                &&& end.files.to_set() == shared_files(l)
            },
{
    lemma_walk_inv_start(l);
    let (n, fin) = lemma_walk_finishes(walk_begin(), Set::empty(), l);
    let end = walk_run(walk_begin(), l, n);
    assert forall|r: Seq<Seq<u8>>| #[trigger] entered(l, r) implies fin.contains(r) by {
        if !fin.contains(r) {
            let k = choose|k: int| 0 <= k <= r.len() && #[trigger] end.pending.contains(r.take(k));
            assert(false);
        }
    }
    assert(end.files.to_set() =~= shared_files(l)) by {
        assert forall|f: Seq<Seq<u8>>| end.files.to_set().contains(f) <==> shared_files(l).contains(f) by {
            assert(end.files.to_set().contains(f) <==> end.files.contains(f));
            if f.len() > 0 && entered(l, f.drop_last()) {
                assert(fin.contains(f.drop_last()));
            }
        }
    }
}

} // verus!
