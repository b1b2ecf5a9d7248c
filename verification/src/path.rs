//! A file-system path held as its components. Text is read as a path by
//! the POSIX rules: `'/'` separates components, a leading `'/'` starts at
//! the root, repeated separators and `"."` components other than a leading
//! one are dropped. A path may also carry a prefix (a Windows drive or
//! share), which no pop or push of components takes away.
use vstd::prelude::*;
use vstd::string::*;

verus! {

/// A path as a value: its prefix (empty where the system has none),
/// whether it starts at the root directory, and its components in order.
pub struct PathView {
    pub prefix: Seq<char>,
    pub absolute: bool,
    pub components: Seq<Seq<char>>,
}

/// The components `"."` and `".."`, which name no file.
pub open spec fn is_dot_component(c: Seq<char>) -> bool {
    c == seq!['.'] || c == seq!['.', '.']
}

/// Index of the last `'.'` in `s`, or `-1` when `s` holds none.
pub open spec fn last_dot_index(s: Seq<char>) -> int
    decreases s.len(),
{
    if s.len() == 0 {
        -1
    } else if s.last() == '.' {
        s.len() - 1
    } else {
        last_dot_index(s.drop_last())
    }
}

/// The extension of a file name: the part after its last `'.'`, unless the
/// name holds no `'.'` or its only `'.'` is the first character.
pub open spec fn extension_of_name(name: Seq<char>) -> Option<Seq<char>> {
    let i = last_dot_index(name);
    if i <= 0 {
        None
    } else {
        Some(name.subrange(i + 1, name.len() as int))
    }
}

/// A piece of text between separators that counts as a component: not
/// empty, and not `"."`.
pub open spec fn keep_piece(c: Seq<char>) -> bool {
    c.len() > 0 && c != seq!['.']
}

/// A single component written as text: kept, and free of separators.
pub open spec fn is_plain_component(c: Seq<char>) -> bool {
    &&& keep_piece(c)
    &&& forall|i: int| 0 <= i < c.len() ==> c[i] != '/'
}

/// The pieces of `s` between separators, in order, empty ones included.
pub open spec fn pieces(s: Seq<char>) -> Seq<Seq<char>>
    decreases s.len(),
{
    if s.len() == 0 {
        seq![Seq::empty()]
    } else {
        let p = pieces(s.drop_last());
        if s.last() == '/' {
            p.push(Seq::empty())
        } else {
            p.update(p.len() - 1, p.last().push(s.last()))
        }
    }
}

/// The pieces that count as components, in order.
pub open spec fn kept(ps: Seq<Seq<char>>) -> Seq<Seq<char>>
    decreases ps.len(),
{
    if ps.len() == 0 {
        Seq::empty()
    } else if keep_piece(ps.last()) {
        kept(ps.drop_last()).push(ps.last())
    } else {
        kept(ps.drop_last())
    }
}

/// The components written in `s`, leaving aside a leading `"."`.
pub open spec fn inner_components(s: Seq<char>) -> Seq<Seq<char>> {
    kept(pieces(s))
}

pub open spec fn starts_with_separator(s: Seq<char>) -> bool {
    s.len() > 0 && s[0] == '/'
}

/// `s` is `"."` or starts with `"./"`: a relative path that keeps its
/// leading `"."` component.
pub open spec fn starts_with_cur_dir(s: Seq<char>) -> bool {
    s.len() > 0 && s[0] == '.' && (s.len() == 1 || s[1] == '/')
}

/// The path that the text `s` names.
pub open spec fn parse_path(s: Seq<char>) -> PathView {
    if starts_with_separator(s) {
        PathView { prefix: Seq::empty(), absolute: true, components: inner_components(s) }
    } else if starts_with_cur_dir(s) {
        PathView {
            prefix: Seq::empty(),
            absolute: false,
            components: seq![seq!['.']] + inner_components(s),
        }
    } else {
        PathView { prefix: Seq::empty(), absolute: false, components: inner_components(s) }
    }
}

proof fn lemma_pieces_len(s: Seq<char>)
    ensures
        pieces(s).len() >= 1,
    decreases s.len(),
{
    if s.len() > 0 {
        lemma_pieces_len(s.drop_last());
    }
}

proof fn lemma_pieces_without_separator(s: Seq<char>)
    requires
        forall|i: int| 0 <= i < s.len() ==> s[i] != '/',
    ensures
        pieces(s) == seq![s],
    decreases s.len(),
{
    if s.len() == 0 {
        assert(s =~= Seq::<char>::empty());
    } else {
        let d = s.drop_last();
        assert forall|i: int| 0 <= i < d.len() implies d[i] != '/' by {
            assert(d[i] == s[i]);
        }
        lemma_pieces_without_separator(d);
        assert(s[s.len() - 1] != '/');
        assert(d.push(s.last()) =~= s);
        assert(seq![d].update(0, s) =~= seq![s]);
    }
}

/// Text that is a single plain component names the relative path of that
/// component, and pushing it adds exactly that component.
pub proof fn lemma_plain_component(p: PathView, c: Seq<char>)
    requires
        is_plain_component(c),
    ensures
        inner_components(c) == seq![c],
        parse_path(c) == (PathView { prefix: Seq::empty(), absolute: false, components: seq![c] }),
        p.push_str(c) == p.join(c),
{
    lemma_pieces_without_separator(c);
    assert(seq![c].drop_last() =~= Seq::<Seq<char>>::empty());
    assert(seq![c].last() == c);
    assert(kept(Seq::<Seq<char>>::empty()) == Seq::<Seq<char>>::empty());
    assert(kept(seq![c]) =~= seq![c]);
    if c[0] == '.' && c.len() == 1 {
        assert(c =~= seq!['.']);
    }
    assert(p.components + seq![c] =~= p.components.push(c));
    if !p.absolute && p.components.len() == 0 && p.prefix.len() == 0 {
        assert(p.components.push(c) =~= seq![c]);
        assert(p.prefix =~= Seq::<char>::empty());
    }
}

impl PathView {
    /// The path after `PathBuf::push` of the text `s`: text that starts at
    /// the root keeps only the prefix and takes the components written in
    /// it; text pushed on the empty path is the path it names; other text
    /// extends the path by the components written in it.
    pub open spec fn push_str(self, s: Seq<char>) -> PathView {
        if starts_with_separator(s) {
            PathView { prefix: self.prefix, absolute: true, components: inner_components(s) }
        } else if !self.absolute && self.components.len() == 0 && self.prefix.len() == 0 {
            parse_path(s)
        } else {
            PathView { components: self.components + inner_components(s), ..self }
        }
    }

    /// The path without its last component; the same path when it has none.
    pub open spec fn parent(self) -> PathView {
        if self.components.len() == 0 {
            self
        } else {
            PathView { components: self.components.drop_last(), ..self }
        }
    }

    /// The path with one more component at its end.
    pub open spec fn join(self, c: Seq<char>) -> PathView {
        PathView { components: self.components.push(c), ..self }
    }

    /// The last component, when there is one and it names a file.
    pub open spec fn file_name(self) -> Option<Seq<char>> {
        if self.components.len() == 0 || is_dot_component(self.components.last()) {
            None
        } else {
            Some(self.components.last())
        }
    }

    pub open spec fn extension(self) -> Option<Seq<char>> {
        match self.file_name() {
            Some(name) => extension_of_name(name),
            None => None,
        }
    }
}

/// Extending a path by a component and then truncating it to its parent
/// gives back the path.
pub proof fn lemma_join_then_parent(p: PathView, c: Seq<char>)
    ensures
        p.join(c).parent() == p,
{
    assert(p.components.push(c).drop_last() =~= p.components);
}

/// Extending a path by a component names that component as the file, so
/// the extension of the result is that of the component (unless it is
/// `"."` or `".."`).
pub proof fn lemma_join_file_name(p: PathView, c: Seq<char>)
    requires
        !is_dot_component(c),
    ensures
        p.join(c).file_name() == Some(c),
        p.join(c).extension() == extension_of_name(c),
{
}

proof fn lemma_last_dot_ignores_dotless_suffix(a: Seq<char>, b: Seq<char>)
    requires
        forall|i: int| 0 <= i < b.len() ==> b[i] != '.',
    ensures
        last_dot_index(a + b) == last_dot_index(a),
    decreases b.len(),
{
    if b.len() == 0 {
        assert(a + b =~= a);
    } else {
        let d = b.drop_last();
        assert forall|i: int| 0 <= i < d.len() implies d[i] != '.' by {
            assert(d[i] == b[i]);
        }
        lemma_last_dot_ignores_dotless_suffix(a, d);
        assert((a + b).drop_last() =~= a + d);
        assert((a + b).last() == b[b.len() - 1]);
    }
}

/// The extension of a file name `stem.ext`, where neither part holds a
/// `'.'` and the stem is not empty, is `ext`, however long; a name without
/// a `'.'`, or whose only `'.'` comes first, has none.
pub proof fn lemma_extension_after_last_dot(stem: Seq<char>, ext: Seq<char>)
    requires
        stem.len() > 0,
        forall|i: int| 0 <= i < stem.len() ==> stem[i] != '.',
        forall|i: int| 0 <= i < ext.len() ==> ext[i] != '.',
    ensures
        extension_of_name(stem.push('.') + ext) == Some(ext),
        extension_of_name(stem) is None,
        extension_of_name(seq!['.'] + stem) is None,
        forall|p: PathView| #[trigger] p.join(stem.push('.') + ext).extension() == Some(ext),
        forall|p: PathView| #[trigger] p.join(stem).extension() is None,
{
    let name = stem.push('.') + ext;
    lemma_last_dot_ignores_dotless_suffix(stem.push('.'), ext);
    assert(last_dot_index(stem.push('.')) == stem.len());
    assert(name.subrange(stem.len() + 1int, name.len() as int) =~= ext);
    lemma_last_dot_ignores_dotless_suffix(Seq::<char>::empty(), stem);
    assert(Seq::<char>::empty() + stem =~= stem);
    lemma_last_dot_ignores_dotless_suffix(seq!['.'], stem);
    assert(name[stem.len() - 1] == stem[stem.len() - 1]);
    assert(!is_dot_component(name)) by {
        if name.len() == 2 {
            assert(stem.len() == 1);
        }
    }
    assert(!is_dot_component(stem)) by {
        assert(stem[0] != '.');
    }
    assert forall|p: PathView| #[trigger] p.join(name).extension() == Some(ext) by {
        assert(p.join(name).components.last() == name);
    }
    assert forall|p: PathView| #[trigger] p.join(stem).extension() is None by {
        assert(p.join(stem).components.last() == stem);
    }
}

/// Truncating a path to its parent drops its last component and keeps its
/// prefix and start; a path without components stays as it is.
pub proof fn lemma_parent_drops_last(p: PathView)
    ensures
        p.components.len() > 0 ==> p.parent().components == p.components.take(
            p.components.len() - 1,
        ),
        p.components.len() == 0 ==> p.parent() == p,
        p.parent().prefix == p.prefix,
        p.parent().absolute == p.absolute,
{
    if p.components.len() > 0 {
        assert(p.components.drop_last() =~= p.components.take(p.components.len() - 1));
    }
}

proof fn lemma_pieces_free_of_separator(s: Seq<char>)
    ensures
        forall|j: int, i: int|
            0 <= j < pieces(s).len() && 0 <= i < pieces(s)[j].len() ==> #[trigger] pieces(s)[j][i]
                != '/',
    decreases s.len(),
{
    lemma_pieces_len(s);
    if s.len() > 0 {
        lemma_pieces_free_of_separator(s.drop_last());
        lemma_pieces_len(s.drop_last());
        let p = pieces(s.drop_last());
        if s.last() != '/' {
            let q = p.update(p.len() - 1, p.last().push(s.last()));
            assert forall|j: int, i: int| 0 <= j < q.len() && 0 <= i < q[j].len() implies #[trigger] q[j][i]
                != '/' by {
                if j == p.len() - 1 && i == p.last().len() {
                } else if j == p.len() - 1 {
                    assert(q[j][i] == p[j][i]);
                } else {
                    assert(q[j] == p[j]);
                }
            }
        } else {
            let q = p.push(Seq::<char>::empty());
            assert forall|j: int, i: int| 0 <= j < q.len() && 0 <= i < q[j].len() implies #[trigger] q[j][i]
                != '/' by {
                if j < p.len() {
                    assert(q[j] == p[j]);
                }
            }
        }
    }
}

proof fn lemma_kept_are_plain(ps: Seq<Seq<char>>)
    requires
        forall|j: int, i: int| 0 <= j < ps.len() && 0 <= i < ps[j].len() ==> #[trigger] ps[j][i] != '/',
    ensures
        forall|k: int| 0 <= k < kept(ps).len() ==> is_plain_component(#[trigger] kept(ps)[k]),
    decreases ps.len(),
{
    if ps.len() > 0 {
        let d = ps.drop_last();
        assert forall|j: int, i: int| 0 <= j < d.len() && 0 <= i < d[j].len() implies #[trigger] d[j][i]
            != '/' by {
            assert(d[j] == ps[j]);
        }
        lemma_kept_are_plain(d);
        if keep_piece(ps.last()) {
            assert forall|i: int| 0 <= i < ps.last().len() implies ps.last()[i] != '/' by {
                assert(ps[ps.len() - 1][i] != '/');
            }
            assert(is_plain_component(ps.last()));
            let k2 = kept(d).push(ps.last());
            assert(kept(ps) == k2);
            assert forall|k: int| 0 <= k < k2.len() implies is_plain_component(#[trigger] k2[k]) by {
                if k < kept(d).len() {
                    assert(k2[k] == kept(d)[k]);
                }
            }
        } else {
            assert(kept(ps) == kept(d));
        }
    }
}

proof fn lemma_pieces_concat(a: Seq<char>, b: Seq<char>)
    ensures
        pieces(a.push('/') + b) == pieces(a) + pieces(b),
    decreases b.len(),
{
    lemma_pieces_len(b);
    if b.len() == 0 {
        assert(a.push('/') + b =~= a.push('/'));
        assert(a.push('/').drop_last() =~= a);
        assert(pieces(a).push(Seq::<char>::empty()) =~= pieces(a) + pieces(b));
    } else {
        let d = b.drop_last();
        lemma_pieces_concat(a, d);
        lemma_pieces_len(d);
        assert((a.push('/') + b).drop_last() =~= a.push('/') + d);
        assert((a.push('/') + b).last() == b.last());
        let pa = pieces(a);
        let pd = pieces(d);
        if b.last() == '/' {
            assert((pa + pd).push(Seq::<char>::empty()) =~= pa + pd.push(Seq::<char>::empty()));
        } else {
            let c = b.last();
            assert((pa + pd).update((pa + pd).len() - 1, (pa + pd).last().push(c)) =~= pa
                + pd.update(pd.len() - 1, pd.last().push(c)));
        }
    }
}

proof fn lemma_kept_concat(p: Seq<Seq<char>>, q: Seq<Seq<char>>)
    ensures
        kept(p + q) == kept(p) + kept(q),
    decreases q.len(),
{
    if q.len() == 0 {
        assert(p + q =~= p);
        assert(kept(p) + kept(q) =~= kept(p));
    } else {
        lemma_kept_concat(p, q.drop_last());
        assert((p + q).drop_last() =~= p + q.drop_last());
        assert((p + q).last() == q.last());
        if keep_piece(q.last()) {
            assert((kept(p) + kept(q.drop_last())).push(q.last()) =~= kept(p) + kept(
                q.drop_last(),
            ).push(q.last()));
        }
    }
}

/// Every component written in a text is a plain one: not empty, not
/// `"."`, free of separators; and the components of `a/b` are those of `a`
/// followed by those of `b`.
pub proof fn lemma_components_of_text(a: Seq<char>, b: Seq<char>)
    ensures
        forall|k: int|
            0 <= k < inner_components(a).len() ==> is_plain_component(
                #[trigger] inner_components(a)[k],
            ),
        inner_components(a.push('/') + b) == inner_components(a) + inner_components(b),
{
    lemma_pieces_free_of_separator(a);
    lemma_kept_are_plain(pieces(a));
    lemma_pieces_concat(a, b);
    lemma_kept_concat(pieces(a), pieces(b));
}

/// Text names an absolute path exactly when it starts with a separator; a
/// relative one keeps a leading `"."` only when written first; the text
/// names no prefix.
pub proof fn lemma_parse_path_shape(s: Seq<char>)
    ensures
        parse_path(s).absolute <==> (s.len() > 0 && s[0] == '/'),
        parse_path(s).prefix.len() == 0,
        !parse_path(s).absolute && s.len() > 0 && s[0] == '.' && (s.len() == 1 || s[1] == '/')
            ==> parse_path(s).components == seq![seq!['.']] + inner_components(s),
        !(s.len() > 0 && s[0] == '.' && (s.len() == 1 || s[1] == '/')) ==> parse_path(s).components
            == inner_components(s),
{
}

/// Pushing text that starts with a separator keeps only the prefix and
/// takes the components written in the text; pushing other text on a path
/// that has a prefix, a root or a component extends it by the components
/// written in the text.
pub proof fn lemma_push_str_shape(p: PathView, s: Seq<char>)
    ensures
        s.len() > 0 && s[0] == '/' ==> p.push_str(s) == (PathView {
            prefix: p.prefix,
            absolute: true,
            components: inner_components(s),
        }),
        !(s.len() > 0 && s[0] == '/') && (p.absolute || p.components.len() > 0 || p.prefix.len()
            > 0) ==> p.push_str(s) == (PathView {
            prefix: p.prefix,
            absolute: p.absolute,
            components: p.components + inner_components(s),
        }),
{
}

/// A path of the file system, held as its components.
#[derive(Debug)]
pub struct FsPath {
    prefix: String,
    absolute: bool,
    components: Vec<String>,
}

impl View for FsPath {
    type V = PathView;

    closed spec fn view(&self) -> PathView {
        PathView {
            prefix: self.prefix@,
            absolute: self.absolute,
            components: self.components@.map_values(|c: String| c@),
        }
    }
}

/// Whether two strings hold the same characters.
pub fn str_equal(a: &str, b: &str) -> (r: bool)
    ensures
        r == (a@ == b@),
{
    let n = a.unicode_len();
    if n != b.unicode_len() {
        return false;
    }
    let mut i: usize = 0;
    while i < n
        invariant
            n == a@.len(),
            n == b@.len(),
            i <= n,
            forall|j: int| 0 <= j < i ==> a@[j] == b@[j],
        decreases n - i,
    {
        if a.get_char(i) != b.get_char(i) {
            return false;
        }
        i = i + 1;
    }
    assert(a@ =~= b@);
    true
}

fn is_dot_name(s: &str) -> (r: bool)
    ensures
        r == is_dot_component(s@),
{
    let n = s.unicode_len();
    if n == 1 {
        let r = s.get_char(0) == '.';
        assert(r ==> s@ =~= seq!['.']);
        r
    } else if n == 2 {
        let r = s.get_char(0) == '.' && s.get_char(1) == '.';
        assert(r ==> s@ =~= seq!['.', '.']);
        r
    } else {
        false
    }
}

fn last_dot(s: &str) -> (r: Option<usize>)
    ensures
        match r {
            Some(i) => i == last_dot_index(s@) && i < s@.len(),
            None => last_dot_index(s@) == -1,
        },
{
    let n = s.unicode_len();
    let mut i: usize = n;
    assert(s@.take(n as int) =~= s@);
    while i > 0
        invariant
            n == s@.len(),
            i <= n,
            last_dot_index(s@) == last_dot_index(s@.take(i as int)),
        decreases i,
    {
        assert(s@.take(i as int).drop_last() =~= s@.take(i - 1));
        if s.get_char(i - 1) == '.' {
            return Some(i - 1);
        }
        i = i - 1;
    }
    None
}

fn starts_with_separator_text(s: &str) -> (r: bool)
    ensures
        r == starts_with_separator(s@),
{
    let n = s.unicode_len();
    n > 0 && s.get_char(0) == '/'
}

fn starts_with_cur_dir_text(s: &str) -> (r: bool)
    ensures
        r == starts_with_cur_dir(s@),
{
    let n = s.unicode_len();
    if n == 0 || s.get_char(0) != '.' {
        false
    } else {
        n == 1 || s.get_char(1) == '/'
    }
}

fn keep_piece_text(s: &str) -> (r: bool)
    ensures
        r == keep_piece(s@),
{
    let n = s.unicode_len();
    if n == 0 {
        false
    } else if n == 1 && s.get_char(0) == '.' {
        assert(s@ =~= seq!['.']);
        false
    } else {
        assert(s@ != seq!['.']);
        true
    }
}

/// The components written in `s`, leaving aside a leading `"."`.
fn inner_components_text(s: &str) -> (r: Vec<String>)
    ensures
        r@.map_values(|c: String| c@) == inner_components(s@),
{
    let n = s.unicode_len();
    let mut out: Vec<String> = Vec::new();
    let mut start: usize = 0;
    let mut i: usize = 0;
    assert(s@.take(0) =~= Seq::<char>::empty());
    assert(s@.subrange(0, 0) =~= Seq::<char>::empty());
    while i < n
        invariant
            n == s@.len(),
            start <= i <= n,
            pieces(s@.take(i as int)).len() >= 1,
            pieces(s@.take(i as int)).last() == s@.subrange(start as int, i as int),
            out@.map_values(|c: String| c@) == kept(pieces(s@.take(i as int)).drop_last()),
        decreases n - i,
    {
        let ghost p = pieces(s@.take(i as int));
        assert(s@.take(i + 1).drop_last() =~= s@.take(i as int));
        assert(s@.take(i + 1).last() == s@[i as int]);
        if s.get_char(i) == '/' {
            let piece = s.substring_char(start, i);
            assert(p.push(Seq::<char>::empty()).drop_last() =~= p);
            if keep_piece_text(piece) {
                out.push(piece.to_owned());
                assert(out@.map_values(|c: String| c@) =~= kept(p.drop_last()).push(p.last()));
            }
            start = i + 1;
            assert(s@.subrange(start as int, start as int) =~= Seq::<char>::empty());
        } else {
            assert(p.update(p.len() - 1, p.last().push(s@[i as int])).drop_last() =~= p.drop_last());
            assert(s@.subrange(start as int, i + 1) =~= s@.subrange(start as int, i as int).push(
                s@[i as int],
            ));
        }
        i = i + 1;
    }
    assert(s@.take(n as int) =~= s@);
    let piece = s.substring_char(start, n);
    if keep_piece_text(piece) {
        out.push(piece.to_owned());
        assert(out@.map_values(|c: String| c@) =~= kept(pieces(s@).drop_last()).push(
            pieces(s@).last(),
        ));
    }
    out
}

impl FsPath {
    /// A path made of the given components, starting at the root when
    /// `absolute` holds.
    pub fn from_components(absolute: bool, components: Vec<String>) -> (r: FsPath)
        ensures
            r@.prefix.len() == 0,
            r@.absolute == absolute,
            r@.components == components@.map_values(|c: String| c@),
    {
        FsPath { prefix: String::new(), absolute, components }
    }

    /// A path with the given prefix, start and components.
    pub fn from_parts(prefix: String, absolute: bool, components: Vec<String>) -> (r: FsPath)
        ensures
            r@.prefix == prefix@,
            r@.absolute == absolute,
            r@.components == components@.map_values(|c: String| c@),
    {
        FsPath { prefix, absolute, components }
    }

    /// The prefix; empty when there is none.
    pub fn prefix(&self) -> (r: String)
        ensures
            r@ == self@.prefix,
    {
        self.prefix.clone()
    }

    /// The path that the text `s` names.
    pub fn parse(s: &str) -> (r: FsPath)
        ensures
            r@ == parse_path(s@),
    {
        let absolute = starts_with_separator_text(s);
        let inner = inner_components_text(s);
        if !absolute && starts_with_cur_dir_text(s) {
            let mut components: Vec<String> = Vec::new();
            components.push(".".to_owned());
            proof {
                reveal_strlit(".");
            }
            assert(components@[0]@ == seq!['.']);
            let ghost first = components@;
            let mut more = inner;
            let ghost rest = more@;
            components.append(&mut more);
            assert(components@ =~= first + rest);
            let r = FsPath { prefix: String::new(), absolute: false, components };
            assert(r@.components =~= seq![seq!['.']] + inner_components(s@));
            r
        } else {
            FsPath { prefix: String::new(), absolute, components: inner }
        }
    }

    pub fn is_absolute(&self) -> (r: bool)
        ensures
            r == self@.absolute,
    {
        self.absolute
    }

    /// The components, in order.
    pub fn components(&self) -> (r: Vec<String>)
        ensures
            r@.map_values(|c: String| c@) == self@.components,
    {
        let r = self.components.clone();
        assert(r@.map_values(|c: String| c@) =~= self@.components);
        r
    }

    /// Extends the path by the text `path`, as `PathBuf::push` does: text
    /// that starts at the root, or any text pushed on the empty path,
    /// replaces the path; other text adds the components written in it.
    pub fn push(&mut self, path: &str)
        ensures
            final(self)@ == old(self)@.push_str(path@),
    {
        if starts_with_separator_text(path) {
            self.absolute = true;
            self.components = inner_components_text(path);
        } else if !self.absolute && self.components.len() == 0 && self.prefix.as_str().unicode_len()
            == 0 {
            *self = FsPath::parse(path);
        } else {
            let mut more = inner_components_text(path);
            let ghost before = self@.components;
            self.components.append(&mut more);
            assert(self@.components =~= before + inner_components(path@));
        }
    }

    /// Truncates the path to its parent. Returns `false` and leaves the path
    /// as it is when it has no component left.
    pub fn pop(&mut self) -> (r: bool)
        ensures
            r == (old(self)@.components.len() > 0),
            final(self)@ == old(self)@.parent(),
    {
        if self.components.len() == 0 {
            false
        } else {
            self.components.pop();
            assert(self@.components =~= old(self)@.components.drop_last());
            true
        }
    }

    /// Whether both paths hold the same components from the same start.
    pub fn same_as(&self, other: &FsPath) -> (r: bool)
        ensures
            r == (self@ == other@),
    {
        if self.absolute != other.absolute || !(self.prefix == other.prefix) {
            return false;
        }
        if self.components.len() != other.components.len() {
            assert(self@.components.len() != other@.components.len());
            return false;
        }
        let n = self.components.len();
        let mut i: usize = 0;
        while i < n
            invariant
                n == self.components.len(),
                n == other.components.len(),
                i <= n,
                forall|j: int| 0 <= j < i ==> self.components@[j]@ == other.components@[j]@,
            decreases n - i,
        {
            if !(self.components[i] == other.components[i]) {
                assert(self@.components[i as int] != other@.components[i as int]);
                return false;
            }
            i = i + 1;
        }
        assert(self@.components =~= other@.components);
        true
    }

    /// The extension of the file name, as `Path::extension` describes it.
    pub fn extension(&self) -> (r: Option<String>)
        ensures
            match r {
                Some(e) => self@.extension() == Some(e@),
                None => self@.extension() is None,
            },
    {
        let n = self.components.len();
        if n == 0 {
            return None;
        }
        let name = self.components[n - 1].as_str();
        assert(name@ == self@.components.last());
        if is_dot_name(name) {
            return None;
        }
        match last_dot(name) {
            None => None,
            Some(i) => {
                if i == 0 {
                    None
                } else {
                    let len = name.unicode_len();
                    Some(name.substring_char(i + 1, len).to_owned())
                }
            },
        }
    }

    /// Whether the extension of the file name is `ext`, a path without one
    /// counting as having the empty extension.
    pub fn is_extension(&self, ext: &str) -> (r: bool)
        ensures
            r == (match self@.extension() {
                Some(e) => e == ext@,
                None => ext@.len() == 0,
            }),
    {
        match self.extension() {
            Some(e) => str_equal(e.as_str(), ext),
            None => {
                let n = ext.unicode_len();
                n == 0
            },
        }
    }
}

impl Clone for FsPath {
    fn clone(&self) -> (r: Self)
        ensures
            r@ == self@,
    {
        let mut components: Vec<String> = Vec::new();
        let n = self.components.len();
        let mut i: usize = 0;
        while i < n
            invariant
                n == self.components.len(),
                i <= n,
                components@.len() == i,
                forall|j: int| 0 <= j < i ==> components@[j]@ == self.components@[j]@,
            decreases n - i,
        {
            components.push(self.components[i].clone());
            i = i + 1;
        }
        let r = FsPath { prefix: self.prefix.clone(), absolute: self.absolute, components };
        assert(r@.components =~= self@.components);
        r
    }
}

} // verus!
