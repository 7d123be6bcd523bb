//! Command templating: literal, unconditional substitution of the
//! placeholder tokens `$watched`, `$filename` and `$event` in a job's
//! command template.  No escaping is performed; the substituted values
//! reach the command line exactly as given.

use vstd::prelude::*;
use vstd::string::*;

verus! {

/// `tok` occurs in `s` starting at index `i`.
pub open spec fn occurs_at(s: Seq<char>, tok: Seq<char>, i: int) -> bool {
    0 <= i && i + tok.len() <= s.len() && s.subrange(i, i + tok.len() as int) == tok
}

/// `tok` occurs somewhere in `s`.
pub open spec fn occurs(s: Seq<char>, tok: Seq<char>) -> bool {
    exists|i: int| occurs_at(s, tok, i)
}

/// `tok` occurs in `s` at `i` and nowhere else.
pub open spec fn occurs_only_at(s: Seq<char>, tok: Seq<char>, i: int) -> bool {
    occurs_at(s, tok, i) && (forall|j: int| j != i ==> !occurs_at(s, tok, j))
}

/// Left-to-right, non-overlapping replacement of every occurrence of
/// `from` in `s` by `to`.  An empty pattern replaces nothing.
pub open spec fn replaced(s: Seq<char>, from: Seq<char>, to: Seq<char>) -> Seq<char>
    decreases s.len(),
{
    if from.len() == 0 || s.len() < from.len() {
        s
    } else if s.subrange(0, from.len() as int) == from {
        to + replaced(s.skip(from.len() as int), from, to)
    } else {
        seq![s[0]] + replaced(s.skip(1), from, to)
    }
}

/// The watched-root placeholder.
pub open spec fn watched_token() -> Seq<char> {
    "$watched"@
}

/// The changed-file placeholder.
pub open spec fn filename_token() -> Seq<char> {
    "$filename"@
}

/// The event-kind placeholder.
pub open spec fn event_token() -> Seq<char> {
    "$event"@
}

/// A command template rendered for one event: the three placeholders are
/// substituted in this fixed order, each pass replacing every occurrence.
pub open spec fn rendered(
    tmpl: Seq<char>,
    watch: Seq<char>,
    file: Seq<char>,
    kind: Seq<char>,
) -> Seq<char> {
    replaced(
        replaced(replaced(tmpl, watched_token(), watch), filename_token(), file),
        event_token(),
        kind,
    )
}

/// Whether `from` matches the characters of `s` starting at `i`.
fn matches_at(s: &str, i: usize, from: &str) -> (r: bool)
    requires
        i + from@.len() <= s@.len(),
        s@.len() <= usize::MAX,
    ensures
        r == occurs_at(s@, from@, i as int),
{
    let m = from.unicode_len();
    let mut j: usize = 0;
    while j < m
        invariant
            j <= m,
            m == from@.len(),
            i + m <= s@.len() <= usize::MAX,
            forall|k: int| 0 <= k < j ==> s@[i + k] == from@[k],
        decreases m - j,
    {
        if s.get_char(i + j) != from.get_char(j) {
            assert(!occurs_at(s@, from@, i as int)) by {
                assert(s@.subrange(i as int, i + m as int)[j as int] == s@[i + j]);
            }
            return false;
        }
        j = j + 1;
    }
    assert(s@.subrange(i as int, i + m as int) =~= from@);
    true
}

/// Every occurrence of `from` in `s`, scanned left to right without
/// overlap, replaced by `to`; an empty `from` leaves `s` unchanged.
pub fn replace_all(s: &str, from: &str, to: &str) -> (res: String)
    ensures
        res@ == replaced(s@, from@, to@),
{
    let n = s.unicode_len();
    let m = from.unicode_len();
    if m == 0 {
        return s.to_owned();
    }
    let mut out = String::new();
    let mut i: usize = 0;
    assert(s@.skip(0) =~= s@);
    assert(out@ + replaced(s@, from@, to@) =~= replaced(s@, from@, to@));
    while i < n
        invariant
            i <= n,
            n == s@.len(),
            m == from@.len(),
            1 <= m,
            replaced(s@, from@, to@) == out@ + replaced(s@.skip(i as int), from@, to@),
        decreases n - i,
    {
        if n - i >= m && matches_at(s, i, from) {
            proof {
                lemma_replaced_step_match(s@, from@, to@, i as int);
                assert((out@ + to@) + replaced(s@.skip(i + m as int), from@, to@) =~= out@ + (
                to@ + replaced(s@.skip(i + m as int), from@, to@)));
            }
            out.append(to);
            i = i + m;
        } else {
            let c = s.substring_char(i, i + 1);
            proof {
                lemma_replaced_step_char(s@, from@, to@, i as int);
                assert(c@ =~= seq![s@[i as int]]);
                assert((out@ + c@) + replaced(s@.skip(i + 1), from@, to@) =~= out@ + (seq![
                    s@[i as int],
                ] + replaced(s@.skip(i + 1), from@, to@)));
            }
            out.append(c);
            i = i + 1;
        }
    }
    assert(s@.skip(n as int) =~= Seq::<char>::empty());
    assert(replaced(Seq::<char>::empty(), from@, to@) == Seq::<char>::empty());
    assert(out@ + Seq::<char>::empty() =~= out@);
    out
}

/// Render a command template for one event: substitute every occurrence
/// of `$watched` by the watched root, then of `$filename` by the changed
/// file, then of `$event` by the event-kind text.  Substitution is
/// literal and unconditional; no escaping is applied.
pub fn render(template: &str, watch: &str, filename: &str, kind: &str) -> (res: String)
    ensures
        res@ == rendered(template@, watch@, filename@, kind@),
{
    let step_watched = replace_all(template, "$watched", watch);
    let step_filename = replace_all(step_watched.as_str(), "$filename", filename);
    replace_all(step_filename.as_str(), "$event", kind)
}

/// Unfolding step of `replaced` at a match: the scan emits `to` and jumps
/// past the matched pattern.
proof fn lemma_replaced_step_match(s: Seq<char>, from: Seq<char>, to: Seq<char>, i: int)
    requires
        1 <= from.len(),
        occurs_at(s, from, i),
    ensures
        replaced(s.skip(i), from, to) == to + replaced(
            s.skip(i + from.len() as int),
            from,
            to,
        ),
{
    let m = from.len() as int;
    let t = s.skip(i);
    assert(t.subrange(0, m) =~= from) by {
        assert forall|k: int| 0 <= k < m implies t.subrange(0, m)[k] == from[k] by {
            assert(s.subrange(i, i + m)[k] == from[k]);
        }
    }
    assert(t.skip(m) =~= s.skip(i + m));
}

/// Unfolding step of `replaced` where no match starts at `i`: the scan
/// copies one character and moves on.
proof fn lemma_replaced_step_char(s: Seq<char>, from: Seq<char>, to: Seq<char>, i: int)
    requires
        1 <= from.len(),
        0 <= i < s.len(),
        !occurs_at(s, from, i),
    ensures
        replaced(s.skip(i), from, to) == seq![s[i]] + replaced(s.skip(i + 1), from, to),
{
    let m = from.len() as int;
    let t = s.skip(i);
    assert(t[0] == s[i]);
    assert(t.skip(1) =~= s.skip(i + 1));
    assert(seq![t[0]] =~= seq![s[i]]);
    if t.len() < m {
        assert(replaced(t, from, to) == t);
        assert(s.skip(i + 1).len() < m);
        assert(replaced(s.skip(i + 1), from, to) == s.skip(i + 1));
        assert(t =~= seq![s[i]] + s.skip(i + 1));
    } else {
        assert(t.subrange(0, m) != from) by {
            if t.subrange(0, m) == from {
                assert(s.subrange(i, i + m) =~= t.subrange(0, m));
            }
        }
        assert(replaced(t, from, to) == seq![t[0]] + replaced(t.skip(1), from, to));
    }
}

/// Replacement of a token that never occurs leaves the text unchanged.
/// In particular a template without placeholders renders to itself.
pub proof fn lemma_replaced_absent(s: Seq<char>, from: Seq<char>, to: Seq<char>)
    requires
        !occurs(s, from),
    ensures
        replaced(s, from, to) == s,
    decreases s.len(),
{
    if from.len() == 0 || s.len() < from.len() {
    } else {
        assert(!occurs_at(s, from, 0));
        assert(!occurs(s.skip(1), from)) by {
            assert forall|j: int| !occurs_at(s.skip(1), from, j) by {
                if occurs_at(s.skip(1), from, j) {
                    assert(s.subrange(j + 1, j + 1 + from.len() as int) =~= s.skip(1).subrange(
                        j,
                        j + from.len() as int,
                    ));
                    assert(occurs_at(s, from, j + 1));
                }
            }
        }
        lemma_replaced_absent(s.skip(1), from, to);
        assert(seq![s[0]] + s.skip(1) =~= s);
    }
}

/// Template rendering is the identity on a template that holds none of
/// the three placeholder tokens.
pub proof fn lemma_rendered_token_free(
    tmpl: Seq<char>,
    watch: Seq<char>,
    file: Seq<char>,
    kind: Seq<char>,
)
    requires
        !occurs(tmpl, watched_token()),
        !occurs(tmpl, filename_token()),
        !occurs(tmpl, event_token()),
    ensures
        rendered(tmpl, watch, file, kind) == tmpl,
{
    lemma_replaced_absent(tmpl, watched_token(), watch);
    lemma_replaced_absent(tmpl, filename_token(), file);
    lemma_replaced_absent(tmpl, event_token(), kind);
}

/// A token that occurs exactly once is replaced by exactly one splice of
/// the substituted value, at the spot where the token stood.
pub proof fn lemma_replaced_unique(s: Seq<char>, from: Seq<char>, to: Seq<char>, i: int)
    requires
        1 <= from.len(),
        occurs_only_at(s, from, i),
    ensures
        replaced(s, from, to) == s.subrange(0, i) + to + s.skip(i + from.len() as int),
    decreases i,
{
    let m = from.len() as int;
    if i == 0 {
        assert(!occurs(s.skip(m), from)) by {
            assert forall|j: int| !occurs_at(s.skip(m), from, j) by {
                if occurs_at(s.skip(m), from, j) {
                    assert(s.subrange(j + m, j + m + m) =~= s.skip(m).subrange(j, j + m));
                    assert(occurs_at(s, from, j + m));
                }
            }
        }
        lemma_replaced_absent(s.skip(m), from, to);
        assert(replaced(s, from, to) == to + s.skip(m));
        assert(s.subrange(0, 0) + to + s.skip(m) =~= to + s.skip(m));
    } else {
        assert(!occurs_at(s, from, 0));
        assert(s.subrange(0, m) != from) by {
            if s.subrange(0, m) == from {
                assert(s.subrange(0, 0 + m as int) == from);
            }
        }
        assert(s.len() >= i + m);
        assert(replaced(s, from, to) == seq![s[0]] + replaced(s.skip(1), from, to));
        assert(occurs_at(s.skip(1), from, i - 1)) by {
            assert(s.skip(1).subrange(i - 1, i - 1 + m) =~= s.subrange(i, i + m));
        }
        assert(occurs_only_at(s.skip(1), from, i - 1)) by {
            assert forall|j: int| j != i - 1 implies !occurs_at(s.skip(1), from, j) by {
                if occurs_at(s.skip(1), from, j) {
                    assert(s.subrange(j + 1, j + 1 + m) =~= s.skip(1).subrange(j, j + m));
                    assert(occurs_at(s, from, j + 1));
                }
            }
        }
        lemma_replaced_unique(s.skip(1), from, to, i - 1);
        assert(s.skip(1).subrange(0, i - 1) =~= s.subrange(1, i));
        assert(s.skip(1).skip(i - 1 + m) =~= s.skip(i + m));
        assert(seq![s[0]] + (s.subrange(1, i) + to + s.skip(i + m)) =~= s.subrange(0, i) + to
            + s.skip(i + m));
    }
}

/// Round trip of a full rendering: where each placeholder occurs exactly
/// once at its stage, the rendered command is the template with the
/// watched root, the changed file and the event text spliced in, each
/// exactly once where its token stood.
pub proof fn lemma_rendered_round_trip(
    tmpl: Seq<char>,
    watch: Seq<char>,
    file: Seq<char>,
    kind: Seq<char>,
    i1: int,
    i2: int,
    i3: int,
)
    requires
        occurs_only_at(tmpl, watched_token(), i1),
        occurs_only_at(replaced(tmpl, watched_token(), watch), filename_token(), i2),
        occurs_only_at(
            replaced(replaced(tmpl, watched_token(), watch), filename_token(), file),
            event_token(),
            i3,
        ),
    ensures
        replaced(tmpl, watched_token(), watch) == tmpl.subrange(0, i1) + watch + tmpl.skip(
            i1 + watched_token().len() as int,
        ),
        replaced(replaced(tmpl, watched_token(), watch), filename_token(), file) == replaced(
            tmpl,
            watched_token(),
            watch,
        ).subrange(0, i2) + file + replaced(tmpl, watched_token(), watch).skip(
            i2 + filename_token().len() as int,
        ),
        rendered(tmpl, watch, file, kind) == replaced(
            replaced(tmpl, watched_token(), watch),
            filename_token(),
            file,
        ).subrange(0, i3) + kind + replaced(
            replaced(tmpl, watched_token(), watch),
            filename_token(),
            file,
        ).skip(i3 + event_token().len() as int),
{
    reveal_strlit("$watched");
    reveal_strlit("$filename");
    reveal_strlit("$event");
    lemma_replaced_unique(tmpl, watched_token(), watch, i1);
    lemma_replaced_unique(replaced(tmpl, watched_token(), watch), filename_token(), file, i2);
    lemma_replaced_unique(
        replaced(replaced(tmpl, watched_token(), watch), filename_token(), file),
        event_token(),
        kind,
        i3,
    );
}

} // verus!
