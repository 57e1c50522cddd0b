//! The vocabulary of remote scanning: errors, kinds of assets, job states and
//! canonical paths.

use vstd::prelude::*;
use vstd::string::*;

use crate::text::{
    cat3, joined, law_pieces_make_up_the_text, pieces, split, texts, trim, trimmed, CharClass,
};

verus! {

/// Why a remote operation did not succeed.
#[derive(Debug, PartialEq, Eq)]
pub enum RemoteScanError {
    Unauthorized,
    Forbidden,
    NotFound,
    RateLimited { retry_after_ms: Option<u64> },
    TransientNetwork(String),
    RangeUnavailable,
    MalformedResponse(String),
    Cancelled,
    Unsupported,
    Io(String),
    Provider(String),
    HttpStatus { stage: String, status: u16 },
}

/// What a remote entry is to the library.
#[derive(Clone, Copy, Debug, PartialEq, Eq, Structural)]
pub enum RemoteAssetKind {
    Directory,
    ArchiveFile,
    ImageFolder,
    ImageFile,
    Other,
}

/// The durable states of a cover job.
#[derive(Clone, Copy, Debug, PartialEq, Eq, Structural)]
pub enum CoverJobState {
    Pending,
    Running,
    Ready,
    RetryWait,
    Blocked,
    Unsupported,
    Failed,
    Cancelled,
}

impl CoverJobState {
    /// The stored name of the state.
    pub open spec fn name(self) -> Seq<char> {
        match self {
            CoverJobState::Pending => "pending"@,
            CoverJobState::Running => "running"@,
            CoverJobState::Ready => "ready"@,
            CoverJobState::RetryWait => "retry_wait"@,
            CoverJobState::Blocked => "blocked"@,
            CoverJobState::Unsupported => "unsupported"@,
            CoverJobState::Failed => "failed"@,
            CoverJobState::Cancelled => "cancelled"@,
        }
    }

    /// The stored name of the state.
    pub fn as_str(self) -> (r: &'static str)
        ensures
            r@ == self.name(),
    {
        match self {
            CoverJobState::Pending => "pending",
            CoverJobState::Running => "running",
            CoverJobState::Ready => "ready",
            CoverJobState::RetryWait => "retry_wait",
            CoverJobState::Blocked => "blocked",
            CoverJobState::Unsupported => "unsupported",
            CoverJobState::Failed => "failed",
            CoverJobState::Cancelled => "cancelled",
        }
    }
}

/// One entry of a remote listing.
pub struct RemoteEntry {
    pub name: String,
    pub logical_path: String,
    pub provider_path: Option<String>,
    pub is_dir: bool,
    pub size: Option<u64>,
    pub mtime: Option<i64>,
    pub asset_kind: RemoteAssetKind,
}

/// The identity of a cover job.
pub struct CoverJobKey {
    pub source_id: String,
    pub asset_id: String,
    pub content_revision: String,
    pub selection_revision: String,
    pub profile: String,
}

// ------------------------------------------------------------------
// Canonical paths
// ------------------------------------------------------------------

/// The non-empty segments, each behind a `/`.
pub open spec fn rooted(segments: Seq<Seq<char>>) -> Seq<char>
    decreases segments.len(),
{
    if segments.len() == 0 {
        Seq::<char>::empty()
    } else if segments.last().len() == 0 {
        rooted(segments.drop_last())
    } else {
        rooted(segments.drop_last()) + "/"@ + segments.last()
    }
}

/// The canonical form of a path: its non-empty segments, each behind one
/// `/`; the root is `/` itself.
pub open spec fn canonical(path: Seq<char>) -> Seq<char> {
    let r = rooted(pieces(path, '/'));
    if r.len() == 0 {
        "/"@
    } else {
        r
    }
}

/// The canonical form of a path.
pub fn normalize_path(path: &str) -> (r: String)
    ensures
        r@ == canonical(path@),
{
    let parts = split(path, '/');
    let mut out = String::new();
    let mut i: usize = 0;
    while i < parts.len()
        invariant
            texts(parts@) == pieces(path@, '/'),
            i <= parts.len(),
            out@ == rooted(texts(parts@).take(i as int)),
        decreases parts.len() - i,
    {
        assert(texts(parts@).take(i + 1).drop_last() == texts(parts@).take(i as int));
        assert(texts(parts@).take(i + 1).last() == parts@[i as int]@);
        if !parts[i].as_str().is_empty() {
            out.append("/");
            out.append(parts[i].as_str());
        }
        i = i + 1;
    }
    assert(texts(parts@).take(i as int) == texts(parts@));
    if out.as_str().is_empty() {
        "/".to_owned()
    } else {
        out
    }
}

/// The canonical path of a child, from its parent and its shown name.
pub open spec fn canonical_child(parent: Seq<char>, name: Seq<char>) -> Seq<char> {
    canonical(canonical(parent) + "/"@ + trimmed(name, CharClass::Separator))
}

/// The canonical path of a child, from its parent and its shown name.
pub fn canonical_child_path(parent: &str, name: &str) -> (r: String)
    ensures
        r@ == canonical_child(parent@, name@),
{
    let bare = trim(name, CharClass::Separator);
    let base = normalize_path(parent);
    let whole = cat3(base.as_str(), "/", bare.as_str());
    normalize_path(whole.as_str())
}

/// The segments of two lists stand behind one another.
proof fn lemma_rooted_of_both(a: Seq<Seq<char>>, b: Seq<Seq<char>>)
    ensures
        rooted(a + b) == rooted(a) + rooted(b),
    decreases b.len(),
{
    if b.len() == 0 {
        assert(a + b =~= a);
        assert(rooted(a) + rooted(b) =~= rooted(a));
    } else {
        assert((a + b).drop_last() =~= a + b.drop_last());
        lemma_rooted_of_both(a, b.drop_last());
        assert(rooted(a + b) =~= rooted(a) + rooted(b));
    }
}

/// A separator between two texts parts their pieces.
proof fn lemma_pieces_of_both(a: Seq<char>, b: Seq<char>)
    ensures
        pieces(a.push('/') + b, '/') == pieces(a, '/') + pieces(b, '/'),
        pieces(b, '/').len() > 0,
    decreases b.len(),
{
    let whole = a.push('/') + b;
    if b.len() == 0 {
        assert(whole =~= a.push('/'));
        assert(a.push('/').drop_last() =~= a);
        assert(pieces(whole, '/') =~= pieces(a, '/') + pieces(b, '/'));
    } else {
        assert(whole.drop_last() =~= a.push('/') + b.drop_last());
        lemma_pieces_of_both(a, b.drop_last());
        let head = pieces(b.drop_last(), '/');
        assert((pieces(a, '/') + head).drop_last() =~= pieces(a, '/') + head.drop_last());
        assert(pieces(whole, '/') =~= pieces(a, '/') + pieces(b, '/'));
    }
}

/// No piece holds the separator.
proof fn lemma_pieces_are_whole(s: Seq<char>)
    ensures
        pieces(s, '/').len() > 0,
        forall|i: int| 0 <= i < pieces(s, '/').len() ==> !(#[trigger] pieces(s, '/')[i]).contains(
            '/',
        ),
    decreases s.len(),
{
    if s.len() > 0 {
        lemma_pieces_are_whole(s.drop_last());
        let head = pieces(s.drop_last(), '/');
        let all = pieces(s, '/');
        assert forall|i: int| 0 <= i < all.len() implies !(#[trigger] all[i]).contains('/') by {
            if i < head.len() - 1 {
                assert(all[i] == head[i]);
            } else if s.last() != '/' {
                assert(all[i] == head.last().push(s.last()));
                assert(head.last() == head[head.len() - 1]);
                if all[i].contains('/') {
                    let j = choose|j: int| 0 <= j < all[i].len() && all[i][j] == '/';
                    assert(head.last()[j] == '/');
                }
            } else if i < head.len() {
                assert(all[i] == head[i]);
            }
        }
    }
}

/// A text without the separator is its own only piece.
proof fn lemma_whole_piece(s: Seq<char>)
    requires
        !s.contains('/'),
    ensures
        pieces(s, '/') == seq![s],
    decreases s.len(),
{
    if s.len() > 0 {
        assert(s[s.len() - 1] == s.last());
        assert(!s.drop_last().contains('/')) by {
            if s.drop_last().contains('/') {
                let j = choose|j: int| 0 <= j < s.drop_last().len() && s.drop_last()[j] == '/';
                assert(s[j] == '/');
            }
        }
        lemma_whole_piece(s.drop_last());
        assert(s.drop_last().push(s.last()) =~= s);
        assert(pieces(s, '/') =~= seq![s]);
    } else {
        assert(s =~= Seq::<char>::empty());
    }
}

/// Taking a rooted text apart and putting it together again changes nothing.
proof fn lemma_rooted_again(segments: Seq<Seq<char>>)
    requires
        forall|i: int| 0 <= i < segments.len() ==> !(#[trigger] segments[i]).contains('/'),
    ensures
        rooted(pieces(rooted(segments), '/')) == rooted(segments),
    decreases segments.len(),
{
    reveal_strlit("/");
    if segments.len() == 0 {
        assert(pieces(rooted(segments), '/') =~= seq![Seq::<char>::empty()]);
        reveal_with_fuel(rooted, 2);
    } else {
        let before = segments.drop_last();
        let last = segments.last();
        assert forall|i: int| 0 <= i < before.len() implies !(#[trigger] before[i]).contains(
            '/',
        ) by {
            assert(before[i] == segments[i]);
        }
        lemma_rooted_again(before);
        if last.len() > 0 {
            assert(last == segments[segments.len() - 1]);
            assert(rooted(segments) =~= rooted(before).push('/') + last);
            lemma_pieces_of_both(rooted(before), last);
            lemma_whole_piece(last);
            let one = pieces(last, '/');
            lemma_rooted_of_both(pieces(rooted(before), '/'), one);
            assert(one.drop_last() =~= Seq::<Seq<char>>::empty());
            reveal_with_fuel(rooted, 2);
            assert(rooted(one) =~= "/"@ + last);
            assert(rooted(before) + rooted(one) =~= rooted(segments));
        }
    }
}

/// A canonical path is its own canonical form.
pub proof fn law_canonical_is_stable(path: Seq<char>)
    ensures
        canonical(canonical(path)) == canonical(path),
{
    reveal_strlit("/");
    let parts = pieces(path, '/');
    lemma_pieces_are_whole(path);
    lemma_rooted_again(parts);
    if rooted(parts).len() == 0 {
        let root = "/"@;
        assert(root.drop_last() =~= Seq::<char>::empty());
        let both = seq![Seq::<char>::empty(), Seq::<char>::empty()];
        assert(pieces(root, '/') =~= both) by {
            reveal_with_fuel(pieces, 2);
        }
        assert(both.drop_last().drop_last() =~= Seq::<Seq<char>>::empty());
        reveal_with_fuel(rooted, 3);
        assert(rooted(both).len() == 0);
    }
}

/// The path of a child is that of its parent with the segments of its name
/// behind it, however deep the parent lies.
pub proof fn law_children_lie_below_their_parent(parent: Seq<char>, name: Seq<char>)
    ensures
        ({
            let below = rooted(pieces(trimmed(name, CharClass::Separator), '/'));
            canonical_child(parent, name) == (if canonical(parent) == "/"@ {
                if below.len() == 0 {
                    "/"@
                } else {
                    below
                }
            } else {
                canonical(parent) + below
            })
        }),
{
    reveal_strlit("/");
    let base = canonical(parent);
    let bare = trimmed(name, CharClass::Separator);
    let whole = base + "/"@ + bare;
    assert(whole =~= base.push('/') + bare);
    lemma_pieces_of_both(base, bare);
    lemma_rooted_of_both(pieces(base, '/'), pieces(bare, '/'));
    lemma_pieces_are_whole(parent);
    lemma_rooted_again(pieces(parent, '/'));
    law_canonical_is_stable(parent);
    let below = rooted(pieces(bare, '/'));
    lemma_rooted_is_never_bare(pieces(parent, '/'));
    if base == "/"@ {
        lemma_rooted_is_never_bare(pieces(base, '/'));
        assert(rooted(pieces(base, '/')).len() == 0);
        assert(rooted(pieces(base, '/')) + below =~= below);
    } else {
        assert(rooted(pieces(base, '/')) == base);
    }
}

/// Segments never make up a lone separator.
proof fn lemma_rooted_is_never_bare(segments: Seq<Seq<char>>)
    ensures
        rooted(segments).len() != 1,
    decreases segments.len(),
{
    reveal_strlit("/");
    if segments.len() > 0 {
        lemma_rooted_is_never_bare(segments.drop_last());
    }
}

/// The states of a cover job have names of their own.
pub proof fn law_state_names_tell_the_states(a: CoverJobState, b: CoverJobState)
    ensures
        a.name() == b.name() <==> a == b,
        CoverJobState::Pending.name() == "pending"@,
        CoverJobState::Running.name() == "running"@,
        CoverJobState::Ready.name() == "ready"@,
        CoverJobState::RetryWait.name() == "retry_wait"@,
        CoverJobState::Blocked.name() == "blocked"@,
        CoverJobState::Unsupported.name() == "unsupported"@,
        CoverJobState::Failed.name() == "failed"@,
        CoverJobState::Cancelled.name() == "cancelled"@,
{
    reveal_strlit("pending");
    reveal_strlit("running");
    reveal_strlit("ready");
    reveal_strlit("retry_wait");
    reveal_strlit("blocked");
    reveal_strlit("unsupported");
    reveal_strlit("failed");
    reveal_strlit("cancelled");
    assert("pending"@.len() == 7 && "running"@.len() == 7 && "blocked"@.len() == 7);
    assert("ready"@.len() == 5 && "retry_wait"@.len() == 10 && "unsupported"@.len() == 11);
    assert("failed"@.len() == 6 && "cancelled"@.len() == 9);
    assert("pending"@[0] == 'p' && "running"@[0] == 'r' && "blocked"@[0] == 'b');
}

proof fn lemma_rooted_has_no_double_separator(segments: Seq<Seq<char>>)
    requires
        forall|i: int| 0 <= i < segments.len() ==> !(#[trigger] segments[i]).contains('/'),
    ensures
        ({
            let r = rooted(segments);
            &&& r.len() > 0 ==> r[0] == '/' && r.last() != '/'
            &&& forall|k: int| 0 <= k < r.len() - 1 && #[trigger] r[k] == '/' ==> r[k + 1] != '/'
        }),
    decreases segments.len(),
{
    reveal_strlit("/");
    if segments.len() > 0 {
        let head = segments.drop_last();
        let last = segments.last();
        assert forall|i: int| 0 <= i < head.len() implies !(#[trigger] head[i]).contains('/') by {
            assert(head[i] == segments[i]);
        }
        lemma_rooted_has_no_double_separator(head);
        if last.len() > 0 {
            let r = rooted(segments);
            let h = rooted(head);
            assert(r == h + "/"@ + last);
            assert(!segments[segments.len() - 1].contains('/'));
            assert forall|j: int| 0 <= j < last.len() implies #[trigger] last[j] != '/' by {
                if last[j] == '/' {
                    assert(last.contains('/'));
                }
            }
            assert(r.last() == last[last.len() - 1]);
            assert forall|k: int| 0 <= k < r.len() - 1 && #[trigger] r[k] == '/' implies r[k + 1]
                != '/' by {
                if k < h.len() - 1 {
                    assert(h[k] == r[k] && h[k + 1] == r[k + 1]);
                } else if k == h.len() - 1 {
                    assert(h[k] == r[k]);
                } else if k == h.len() {
                    assert(r[k + 1] == last[0]);
                } else {
                    assert(r[k] == last[k - h.len() - 1]);
                }
            }
        }
    }
}

/// A canonical path begins with a separator; only the root ends with one, and
/// no two stand together.
pub proof fn law_canonical_paths_are_tidy(path: Seq<char>)
    ensures
        ({
            let c = canonical(path);
            &&& c.len() > 0 && c[0] == '/'
            &&& c.last() == '/' ==> c == "/"@
            &&& forall|k: int| 0 <= k < c.len() - 1 && #[trigger] c[k] == '/' ==> c[k + 1] != '/'
        }),
{
    reveal_strlit("/");
    lemma_pieces_are_whole(path);
    lemma_rooted_has_no_double_separator(pieces(path, '/'));
}

proof fn lemma_rooted_keeps_characters(segments: Seq<Seq<char>>, sep: Seq<char>)
    requires
        sep == "/"@,
    ensures
        without_slashes(rooted(segments)) == without_slashes(joined(segments, sep)),
    decreases segments.len(),
{
    reveal_strlit("/");
    if segments.len() > 0 {
        let head = segments.drop_last();
        let last = segments.last();
        lemma_rooted_keeps_characters(head, sep);
        lemma_without_slashes_of_both(rooted(head), sep);
        lemma_without_slashes_of_both(rooted(head) + sep, last);
        lemma_without_slashes_of_both(joined(head, sep), sep);
        lemma_without_slashes_of_both(joined(head, sep) + sep, last);
        reveal_with_fuel(without_slashes, 2);
        assert(without_slashes(sep) =~= Seq::<char>::empty()) by {
            assert(sep.last() == '/');
            assert(sep.drop_last() =~= Seq::<char>::empty());
        }
        if last.len() == 0 {
            assert(without_slashes(last) =~= Seq::<char>::empty());
        }
        if segments.len() == 1 {
            assert(head =~= Seq::<Seq<char>>::empty());
            assert(joined(segments, sep) == last);
            assert(rooted(head) =~= Seq::<char>::empty());
            assert(without_slashes(rooted(head)) =~= Seq::<char>::empty());
        }
        let a = without_slashes(rooted(head));
        assert(a + Seq::<char>::empty() =~= a);
        let b = without_slashes(last);
        assert(Seq::<char>::empty() + b =~= b);
    }
}

/// The characters of a text that are no separators, in order.
pub open spec fn without_slashes(s: Seq<char>) -> Seq<char>
    decreases s.len(),
{
    if s.len() == 0 {
        Seq::<char>::empty()
    } else if s.last() == '/' {
        without_slashes(s.drop_last())
    } else {
        without_slashes(s.drop_last()).push(s.last())
    }
}

proof fn lemma_without_slashes_of_both(a: Seq<char>, b: Seq<char>)
    ensures
        without_slashes(a + b) == without_slashes(a) + without_slashes(b),
    decreases b.len(),
{
    if b.len() == 0 {
        assert(a + b =~= a);
        assert(without_slashes(a) + without_slashes(b) =~= without_slashes(a));
    } else {
        assert((a + b).drop_last() =~= a + b.drop_last());
        assert((a + b).last() == b.last());
        lemma_without_slashes_of_both(a, b.drop_last());
        let x = without_slashes(a);
        let y = without_slashes(b.drop_last());
        assert(x + y.push(b.last()) =~= (x + y).push(b.last()));
    }
}

/// A canonical path differs from the path in separators alone: the names
/// along it are kept, in their order.
pub proof fn law_canonical_paths_keep_their_names(path: Seq<char>)
    ensures
        without_slashes(canonical(path)) == without_slashes(path),
{
    reveal_strlit("/");
    let segments = pieces(path, '/');
    assert("/"@ =~= seq!['/']);
    law_pieces_make_up_the_text(path, '/');
    lemma_rooted_keeps_characters(segments, "/"@);
    if rooted(segments).len() == 0 {
        reveal_with_fuel(without_slashes, 2);
        assert(rooted(segments) =~= Seq::<char>::empty());
        assert("/"@.drop_last() =~= Seq::<char>::empty());
        assert(without_slashes("/"@) =~= Seq::<char>::empty());
    }
}

} // verus!
