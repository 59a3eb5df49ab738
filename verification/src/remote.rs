//! The remote file browser: logging in, listing a directory, and moving
//! between directories.
use vstd::prelude::*;
use vstd::seq_lib::{to_multiset_insert};
use crate::config::VpsEntry;
use crate::text::{chars_of, string_of, push_str, push_all, chars_eq, split, split_chars, join, join_chars, views, opt_view, lemma_split_join, lemma_split_concat};

verus! {

/// An entry of a remote directory.
#[derive(Debug, Clone)]
pub struct RemoteFile {
    pub name: String,
    pub is_dir: bool,
    pub size: u64,
}

/// How the file browser logs in to a node.
#[derive(Debug, Clone)]
pub enum AuthMethod {
    /// Public-key login with the private key file and, when it exists,
    /// the public key file beside it.
    PublicKey { user: String, private_key: String, public_key: String },
    /// Password login.
    Password { user: String, password: String },
}

/// The error when a node has neither a key nor a password.
pub open spec fn no_credential_error() -> Seq<char> {
    "节点未配置任何有效凭证（密码或私钥），拒绝访问"@
}

/// The error when the server did not accept the credential.
pub open spec fn rejected_error() -> Seq<char> {
    "SFTP 拒绝访问：凭证失效，请检查密钥或密码是否被吊销"@
}

/// The login of a node: its key when it has one (the public key is the
/// key's path with `.pub`), else its password, else none.
pub fn choose_auth(entry: &VpsEntry) -> (r: Result<AuthMethod, String>)
    ensures
        match r {
            Ok(AuthMethod::PublicKey { user, private_key, public_key }) => {
                &&& opt_view(entry.key_path) == Some(private_key@)
                &&& public_key@ == private_key@ + ".pub"@
                &&& user@ == entry.user@
            },
            Ok(AuthMethod::Password { user, password }) => {
                &&& entry.key_path is None
                &&& opt_view(entry.password) == Some(password@)
                &&& user@ == entry.user@
            },
            Err(e) => entry.key_path is None && entry.password is None && e@ == no_credential_error(),
        },
{
    if let Some(k) = &entry.key_path {
        let mut p: Vec<char> = Vec::new();
        push_str(&mut p, k.as_str());
        push_str(&mut p, ".pub");
        Ok(AuthMethod::PublicKey {
            user: String::from_str(entry.user.as_str()),
            private_key: String::from_str(k.as_str()),
            public_key: string_of(p.as_slice()),
        })
    } else if let Some(pw) = &entry.password {
        Ok(AuthMethod::Password {
            user: String::from_str(entry.user.as_str()),
            password: String::from_str(pw.as_str()),
        })
    } else {
        Err(String::from_str("节点未配置任何有效凭证（密码或私钥），拒绝访问"))
    }
}

/// Accepts a session only when the server reports it authenticated.
pub fn check_authenticated(authenticated: bool) -> (r: Result<(), String>)
    ensures
        r is Ok <==> authenticated,
        r matches Err(e) ==> e@ == rejected_error(),
{
    if authenticated {
        Ok(())
    } else {
        Err(String::from_str("SFTP 拒绝访问：凭证失效，请检查密钥或密码是否被吊销"))
    }
}

/// Whether `a` comes before `b` by character code, or is a prefix of it
/// (the order of `String` comparison).
pub open spec fn name_le(a: Seq<char>, b: Seq<char>) -> bool
    decreases a.len(),
{
    if a.len() == 0 {
        true
    } else if b.len() == 0 {
        false
    } else if a[0] != b[0] {
        a[0] < b[0]
    } else {
        name_le(a.drop_first(), b.drop_first())
    }
}

pub proof fn lemma_name_le_total(a: Seq<char>, b: Seq<char>)
    ensures
        name_le(a, b) || name_le(b, a),
    decreases a.len(),
{
    if a.len() > 0 && b.len() > 0 && a[0] == b[0] {
        lemma_name_le_total(a.drop_first(), b.drop_first());
    }
}

pub proof fn lemma_name_le_transitive(a: Seq<char>, b: Seq<char>, c: Seq<char>)
    requires
        name_le(a, b),
        name_le(b, c),
    ensures
        name_le(a, c),
    decreases a.len(),
{
    if a.len() > 0 && b.len() > 0 && c.len() > 0 && a[0] == b[0] && b[0] == c[0] {
        lemma_name_le_transitive(a.drop_first(), b.drop_first(), c.drop_first());
    }
}

/// What a listing shows of a remote entry: its name, whether it is a
/// directory, and its size.
pub type FileView = (Seq<char>, bool, u64);

/// The view of a remote entry.
pub open spec fn file_view(f: RemoteFile) -> FileView {
    (f.name@, f.is_dir, f.size)
}

/// The views of a sequence of remote entries.
pub open spec fn file_views(s: Seq<RemoteFile>) -> Seq<FileView> {
    s.map_values(|f: RemoteFile| file_view(f))
}

/// Whether `a` may stand before `b` in a listing: directories first, then
/// by name.
pub open spec fn listed_le(a: FileView, b: FileView) -> bool {
    (a.1 && !b.1) || (a.1 == b.1 && name_le(a.0, b.0))
}

/// Whether a listing is in order.
pub open spec fn listing_sorted(s: Seq<FileView>) -> bool {
    forall|i: int, j: int| 0 <= i < j < s.len() ==> listed_le(#[trigger] s[i], #[trigger] s[j])
}

/// What a listing holds before it is ordered: `..` unless the directory is
/// the root, then the entries other than `.` and `..`.
pub open spec fn listing_entries(path: Seq<char>, raw: Seq<FileView>) -> Seq<FileView> {
    let up: Seq<FileView> = if path == "/"@ { Seq::empty() } else { seq![(".."@, true, 0u64)] };
    up + raw.filter(|f: FileView| f.0 != "."@ && f.0 != ".."@)
}

/// How many entries at the start of `s` may stand before `f`: where an
/// insertion that keeps equal entries in arrival order puts `f`.
pub open spec fn insert_pos(s: Seq<FileView>, f: FileView) -> nat
    decreases s.len(),
{
    if s.len() == 0 {
        0
    } else if listed_le(s[0], f) {
        1 + insert_pos(s.drop_first(), f)
    } else {
        0
    }
}

/// The entries in listing order, as a stable sort gives it: each entry in
/// turn goes after the entries before it that it may follow.
pub open spec fn sorted_listing(s: Seq<FileView>) -> Seq<FileView>
    decreases s.len(),
{
    if s.len() == 0 {
        s
    } else {
        let r = sorted_listing(s.drop_last());
        r.insert(insert_pos(r, s.last()) as int, s.last())
    }
}

/// Whether `a` may stand before `b`.
fn listed_le_exec(a: &RemoteFile, b: &RemoteFile) -> (r: bool)
    ensures
        r == listed_le(file_view(*a), file_view(*b)),
{
    if a.is_dir != b.is_dir {
        return a.is_dir;
    }
    let x = chars_of(a.name.as_str());
    let y = chars_of(b.name.as_str());
    let mut i: usize = 0;
    assert(x@.skip(0) =~= x@ && y@.skip(0) =~= y@);
    while i < x.len() && i < y.len() && x[i] == y[i]
        invariant
            i <= x@.len(),
            i <= y@.len(),
            name_le(x@, y@) == name_le(x@.skip(i as int), y@.skip(i as int)),
        decreases x.len() - i,
    {
        assert(x@.skip(i as int).drop_first() =~= x@.skip(i + 1));
        assert(y@.skip(i as int).drop_first() =~= y@.skip(i + 1));
        i = i + 1;
    }
    if i == x.len() {
        true
    } else if i == y.len() {
        false
    } else {
        assert(x@.skip(i as int)[0] == x@[i as int]);
        assert(y@.skip(i as int)[0] == y@[i as int]);
        x[i] < y[i]
    }
}

proof fn lemma_listed_le_total(a: FileView, b: FileView)
    ensures
        listed_le(a, b) || listed_le(b, a),
{
    lemma_name_le_total(a.0, b.0);
}

proof fn lemma_listed_le_transitive(a: FileView, b: FileView, c: FileView)
    requires
        listed_le(a, b),
        listed_le(b, c),
    ensures
        listed_le(a, c),
{
    if a.1 == b.1 && b.1 == c.1 {
        lemma_name_le_transitive(a.0, b.0, c.0);
    }
}

/// A copy of a remote entry.
fn copy_file(f: &RemoteFile) -> (r: RemoteFile)
    ensures
        file_view(r) == file_view(*f),
{
    RemoteFile { name: f.name.clone(), is_dir: f.is_dir, size: f.size }
}

/// Puts `f` into an ordered listing, after the entries it may follow.
fn insert_sorted(r: &mut Vec<RemoteFile>, f: RemoteFile)
    requires
        listing_sorted(file_views(old(r)@)),
    ensures
        listing_sorted(file_views(final(r)@)),
        file_views(final(r)@).to_multiset() == file_views(old(r)@).to_multiset().insert(file_view(f)),
        file_views(final(r)@) == file_views(old(r)@).insert(insert_pos(file_views(old(r)@), file_view(f)) as int, file_view(f)),
{
    let ghost fv = file_view(f);
    let ghost s = file_views(r@);
    let mut p: usize = 0;
    assert(s.skip(0) =~= s);
    while p < r.len() && listed_le_exec(&r[p], &f)
        invariant
            p <= r@.len(),
            fv == file_view(f),
            s == file_views(r@),
            listing_sorted(s),
            forall|j: int| 0 <= j < p ==> listed_le(#[trigger] s[j], fv),
            insert_pos(s, fv) == p + insert_pos(s.skip(p as int), fv),
        decreases r.len() - p,
    {
        assert(s[p as int] == file_view(r@[p as int]));
        assert(listed_le(s[p as int], fv));
        assert(s.skip(p as int)[0] == s[p as int]);
        assert(s.skip(p as int).drop_first() =~= s.skip(p + 1));
        p = p + 1;
    }
    proof {
        if p < s.len() {
            assert(s.skip(p as int)[0] == s[p as int]);
            assert(s[p as int] == file_view(r@[p as int]));
        }
        assert(insert_pos(s, fv) == p);
    }
    proof {
        if p < s.len() {
            lemma_listed_le_total(s[p as int], fv);
        }
    }
    r.insert(p, f);
    proof {
        let t = file_views(r@);
        assert(t =~= s.insert(p as int, fv));
        to_multiset_insert(s, p as int, fv);
        assert forall|i: int, j: int| 0 <= i < j < t.len() implies listed_le(#[trigger] t[i], #[trigger] t[j]) by {
            if j < p {
                assert(t[i] == s[i] && t[j] == s[j]);
            } else if j == p {
                assert(t[i] == s[i]);
            } else if i == p {
                assert(t[j] == s[j - 1]);
                if j - 1 > p {
                    assert(listed_le(s[p as int], s[j - 1]));
                    lemma_listed_le_transitive(fv, s[p as int], s[j - 1]);
                }
            } else if i < p {
                assert(t[i] == s[i] && t[j] == s[j - 1]);
            } else {
                assert(t[i] == s[i - 1] && t[j] == s[j - 1]);
            }
        }
    }
}

/// A directory listing as the browser shows it: `..` unless at the root,
/// the entries other than `.` and `..`, directories first, then by name.
pub fn build_listing(path: &str, raw: &Vec<RemoteFile>) -> (files: Vec<RemoteFile>)
    ensures
        listing_sorted(file_views(files@)),
        file_views(files@).to_multiset() == listing_entries(path@, file_views(raw@)).to_multiset(),
        file_views(files@) == sorted_listing(listing_entries(path@, file_views(raw@))),
{
    let p = chars_of(path);
    let root = chars_of("/");
    let dot = chars_of(".");
    let dotdot = chars_of("..");
    let mut files: Vec<RemoteFile> = Vec::new();
    let ghost rv = file_views(raw@);
    let ghost kept_all = rv.filter(|f: FileView| f.0 != "."@ && f.0 != ".."@);
    if !chars_eq(p.as_slice(), root.as_slice()) {
        let up = RemoteFile { name: string_of(dotdot.as_slice()), is_dir: true, size: 0 };
        insert_sorted(&mut files, up);
    }
    let ghost up_part: Seq<FileView> = if path@ == "/"@ { Seq::empty() } else { seq![(".."@, true, 0u64)] };
    proof {
        broadcast use vstd::seq_lib::group_to_multiset_ensures;
        assert(file_views(files@).to_multiset() =~= up_part.to_multiset());
        if up_part.len() > 0 {
            assert(up_part.drop_last() =~= Seq::<FileView>::empty());
            assert(sorted_listing(up_part.drop_last()) =~= Seq::<FileView>::empty());
            assert(insert_pos(Seq::<FileView>::empty(), up_part.last()) == 0);
            assert(sorted_listing(up_part) =~= seq![up_part.last()]);
            assert(file_views(files@) =~= seq![(".."@, true, 0u64)]);
        } else {
            assert(file_views(files@) =~= Seq::<FileView>::empty());
        }
        assert(file_views(files@) =~= sorted_listing(up_part));
        assert(rv.take(0) =~= Seq::<FileView>::empty());
        assert(up_part + rv.take(0).filter(|f: FileView| f.0 != "."@ && f.0 != ".."@) =~= up_part) by {
            reveal(Seq::filter);
        }
    }
    for i in 0..raw.len()
        invariant
            rv == file_views(raw@),
            dot@ == "."@,
            dotdot@ == ".."@,
            listing_sorted(file_views(files@)),
            file_views(files@).to_multiset() == (up_part + rv.take(i as int).filter(|f: FileView| f.0 != "."@ && f.0 != ".."@)).to_multiset(),
            file_views(files@) == sorted_listing(up_part + rv.take(i as int).filter(|f: FileView| f.0 != "."@ && f.0 != ".."@)),
    {
        proof {
            reveal(Seq::filter);
            assert(rv.take(i + 1).drop_last() =~= rv.take(i as int));
            vstd::seq_lib::lemma_multiset_commutative(up_part, rv.take(i as int).filter(|f: FileView| f.0 != "."@ && f.0 != ".."@));
            vstd::seq_lib::lemma_multiset_commutative(up_part, rv.take(i + 1).filter(|f: FileView| f.0 != "."@ && f.0 != ".."@));
        }
        let name = chars_of(raw[i].name.as_str());
        if !chars_eq(name.as_slice(), dot.as_slice()) && !chars_eq(name.as_slice(), dotdot.as_slice()) {
            let f = copy_file(&raw[i]);
            insert_sorted(&mut files, f);
            proof {
                broadcast use vstd::seq_lib::group_to_multiset_ensures;
                let k = rv.take(i as int).filter(|f: FileView| f.0 != "."@ && f.0 != ".."@);
                assert(rv.take(i + 1).filter(|f: FileView| f.0 != "."@ && f.0 != ".."@) == k.push(rv[i as int]));
                assert(k.push(rv[i as int]).to_multiset() =~= k.to_multiset().insert(rv[i as int]));
                assert((up_part + k.push(rv[i as int])).drop_last() =~= up_part + k);
                assert((up_part + k.push(rv[i as int])).last() == rv[i as int]);
            }
        }
    }
    assert(rv.take(raw@.len() as int) =~= rv);
    assert(up_part + kept_all == listing_entries(path@, rv));
    files
}

} // verus!

verus! {

/// The path of entry `name` inside directory `dir`.
pub open spec fn child_path_spec(dir: Seq<char>, name: Seq<char>) -> Seq<char> {
    if dir == "/"@ { "/"@ + name } else { dir + "/"@ + name }
}

/// The non-empty `/`-separated segments of a path.
pub open spec fn path_segments(path: Seq<char>) -> Seq<Seq<char>> {
    split(path, '/').filter(|s: Seq<char>| s.len() > 0)
}

/// The directory of a path given by its segments: `/` for none.
pub open spec fn dir_of(segs: Seq<Seq<char>>) -> Seq<char> {
    if segs.len() == 0 { "/"@ } else { "/"@ + join(segs, "/"@) }
}

/// The parent of a directory: its segments without the last one.
pub open spec fn parent_path_spec(path: Seq<char>) -> Seq<char> {
    let segs = path_segments(path);
    dir_of(if segs.len() > 0 { segs.drop_last() } else { segs })
}

/// The path of entry `name` inside directory `dir`.
pub fn child_path(dir: &str, name: &str) -> (s: String)
    ensures
        s@ == child_path_spec(dir@, name@),
{
    let d = chars_of(dir);
    let root = chars_of("/");
    let mut v: Vec<char> = Vec::new();
    if chars_eq(d.as_slice(), root.as_slice()) {
        push_str(&mut v, "/");
        push_str(&mut v, name);
    } else {
        push_all(&mut v, d.as_slice());
        push_str(&mut v, "/");
        push_str(&mut v, name);
    }
    string_of(v.as_slice())
}

/// The parent directory of `path` (see `parent_path_spec`).
pub fn parent_path(path: &str) -> (s: String)
    ensures
        s@ == parent_path_spec(path@),
{
    let p = chars_of(path);
    let parts = split_chars(p.as_slice(), '/');
    let ghost sv = views(parts@);
    let mut segs: Vec<Vec<char>> = Vec::new();
    for i in 0..parts.len()
        invariant
            sv == views(parts@),
            sv == split(path@, '/'),
            views(segs@) == sv.take(i as int).filter(|s: Seq<char>| s.len() > 0),
    {
        proof {
            reveal(Seq::filter);
            assert(sv.take(i + 1).drop_last() =~= sv.take(i as int));
        }
        if parts[i].len() > 0 {
            let ghost before = views(segs@);
            let part = parts[i].clone();
            assert(part@ == sv[i as int]);
            segs.push(part);
            assert(views(segs@) =~= before.push(sv[i as int]));
        }
    }
    assert(sv.take(parts@.len() as int) =~= sv);
    if segs.len() > 0 {
        let ghost before = views(segs@);
        segs.pop();
        assert(views(segs@) =~= before.drop_last());
    }
    let mut v: Vec<char> = Vec::new();
    push_str(&mut v, "/");
    if segs.len() > 0 {
        let sep = chars_of("/");
        let joined = join_chars(&segs, sep.as_slice());
        push_all(&mut v, joined.as_slice());
    }
    string_of(v.as_slice())
}

/// Going up from an entry's path gives back its directory, for a directory
/// written as `/` or as `/`-separated non-empty segments, and an entry name
/// that is not empty and holds no `/`.
pub proof fn lemma_parent_of_child(segs: Seq<Seq<char>>, name: Seq<char>)
    requires
        forall|i: int| 0 <= i < segs.len() ==> (#[trigger] segs[i]).len() > 0 && !segs[i].contains('/'),
        name.len() > 0,
        !name.contains('/'),
    ensures
        parent_path_spec(child_path_spec(dir_of(segs), name)) == dir_of(segs),
{
    reveal_strlit("/");
    let all = segs.push(name);
    assert(dir_of(segs) == "/"@ ==> segs.len() == 0);
    assert(child_path_spec(dir_of(segs), name) == dir_of(all)) by {
        if segs.len() == 0 {
            assert(all =~= seq![name]);
        } else {
            assert(all.drop_last() =~= segs);
            assert(join(all, "/"@) == join(segs, "/"@) + "/"@ + name);
        }
    }
    assert forall|i: int| 0 <= i < all.len() implies (#[trigger] all[i]).len() > 0 && !all[i].contains('/') by {
        if i < segs.len() {
            assert(all[i] == segs[i]);
        }
    }
    assert("/"@ =~= seq!['/']);
    lemma_split_join(all, '/');
    lemma_split_concat(Seq::<char>::empty(), join(all, "/"@), '/');
    assert(Seq::<char>::empty() + seq!['/'] + join(all, "/"@) =~= dir_of(all));
    assert(split(Seq::<char>::empty(), '/') =~= seq![Seq::<char>::empty()]);
    let pred = |s: Seq<char>| s.len() > 0;
    Seq::filter_distributes_over_add(seq![Seq::<char>::empty()], all, pred);
    assert(seq![Seq::<char>::empty()].filter(pred) =~= Seq::<Seq<char>>::empty()) by {
        reveal(Seq::filter);
        let one = seq![Seq::<char>::empty()];
        assert(one.drop_last() =~= Seq::<Seq<char>>::empty());
        assert(Seq::<Seq<char>>::empty().filter(pred) =~= Seq::<Seq<char>>::empty());
        assert(!pred(one.last()));
    }
    lemma_filter_keeps_all(all);
    assert(path_segments(dir_of(all)) =~= all);
    assert(all.drop_last() =~= segs);
}

/// Filtering out empty segments keeps a sequence of non-empty segments whole.
proof fn lemma_filter_keeps_all(s: Seq<Seq<char>>)
    requires
        forall|i: int| 0 <= i < s.len() ==> (#[trigger] s[i]).len() > 0,
    ensures
        s.filter(|x: Seq<char>| x.len() > 0) == s,
    decreases s.len(),
{
    reveal(Seq::filter);
    if s.len() > 0 {
        assert forall|i: int| 0 <= i < s.drop_last().len() implies (#[trigger] s.drop_last()[i]).len() > 0 by {
            assert(s.drop_last()[i] == s[i]);
        }
        lemma_filter_keeps_all(s.drop_last());
        assert(s.drop_last().push(s.last()) =~= s);
    }
}

} // verus!

verus! {

/// In an ordered listing every directory comes before every file, and
/// entries of the same kind are in name order.
pub proof fn lemma_listing_order(s: Seq<FileView>)
    requires
        listing_sorted(s),
    ensures
        forall|i: int, j: int| 0 <= i < j < s.len() && (#[trigger] s[j]).1 ==> (#[trigger] s[i]).1,
        forall|i: int, j: int| 0 <= i < j < s.len() && (#[trigger] s[i]).1 == (#[trigger] s[j]).1 ==> name_le(s[i].0, s[j].0),
{
}

/// Names are compared character by character: at the first place two
/// names differ the smaller character comes first, a name comes before the
/// names it starts, and a name may stand before itself.
pub proof fn lemma_name_order(p: Seq<char>, x: Seq<char>, y: Seq<char>)
    ensures
        name_le(p, p + x),
        x.len() > 0 && y.len() > 0 && x[0] < y[0] ==> name_le(p + x, p + y) && !name_le(p + y, p + x),
    decreases p.len(),
{
    if p.len() > 0 {
        lemma_name_order(p.drop_first(), x, y);
        assert((p + x).drop_first() =~= p.drop_first() + x);
        assert((p + y).drop_first() =~= p.drop_first() + y);
    } else {
        assert(p + x =~= x);
        assert(p + y =~= y);
    }
}

/// A listing holds `..` exactly when the directory is not the root (as a
/// directory of size 0), never `.`, and every entry the server sent other
/// than `.` and `..`.
pub proof fn lemma_listing_entries_law(path: Seq<char>, raw: Seq<FileView>)
    ensures
        ({
            let l = listing_entries(path, raw);
            &&& (forall|i: int| 0 <= i < l.len() ==> (#[trigger] l[i]).0 != "."@)
            &&& (forall|i: int| 0 <= i < l.len() && (#[trigger] l[i]).0 == ".."@ ==> l[i] == (".."@, true, 0u64) && path != "/"@)
            &&& (path != "/"@ ==> l.contains((".."@, true, 0u64)))
            &&& (forall|i: int| 0 <= i < raw.len() && (#[trigger] raw[i]).0 != "."@ && raw[i].0 != ".."@ ==> l.contains(raw[i]))
        }),
{
    reveal_strlit(".");
    reveal_strlit("..");
    let pred = |f: FileView| f.0 != "."@ && f.0 != ".."@;
    let kept = raw.filter(pred);
    let up: Seq<FileView> = if path == "/"@ { Seq::empty() } else { seq![(".."@, true, 0u64)] };
    let l = listing_entries(path, raw);
    assert(l == up + kept);
    raw.filter_lemma(pred);
    assert forall|i: int| 0 <= i < l.len() implies (#[trigger] l[i]).0 != "."@
        && (l[i].0 == ".."@ ==> l[i] == (".."@, true, 0u64) && path != "/"@) by {
        if i >= up.len() {
            assert(l[i] == kept[i - up.len()]);
            assert(pred(kept[i - up.len()]));
        } else {
            assert(l[i] == up[i]);
            assert(".."@ != "."@) by {
                assert(".."@.len() != "."@.len());
            }
        }
    }
    if path != "/"@ {
        assert(l[0] == (".."@, true, 0u64));
    }
    assert forall|i: int| 0 <= i < raw.len() && (#[trigger] raw[i]).0 != "."@ && raw[i].0 != ".."@ implies l.contains(raw[i]) by {
        assert(pred(raw[i]));
        assert(kept.contains(raw[i]));
        let k = choose|k: int| 0 <= k < kept.len() && kept[k] == raw[i];
        assert(l[up.len() + k] == kept[k]);
    }
}

} // verus!
