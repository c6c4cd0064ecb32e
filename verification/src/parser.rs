use crate::error::CustomError;
use vstd::prelude::*;

verus! {

/// Which section of a shader file content lines are currently appended to.
/// `Inactive` means no section marker has been seen yet.
#[derive(Clone, Copy, Debug, PartialEq, Eq, Structural)]
pub enum Section {
    Inactive,
    Vertex,
    Fragment,
}

/// The two shader stage sources produced by parsing one shader file.
#[derive(Debug)]
pub struct ShaderSource {
    pub vertex: String,
    pub fragment: String,
}

pub open spec fn vertex_marker() -> Seq<char> {
    "#shader vertex"@
}

pub open spec fn fragment_marker() -> Seq<char> {
    "#shader fragment"@
}

/// `needle` occurs as a contiguous run of characters inside `hay`.
pub open spec fn contains_seq(hay: Seq<char>, needle: Seq<char>) -> bool {
    exists|i: int|
        0 <= i && i + needle.len() <= hay.len() && #[trigger] hay.subrange(i, i + needle.len())
            == needle
}

/// The section a line switches parsing to, if it is a marker line.
/// A line holding the vertex marker wins over one also holding the
/// fragment marker, mirroring the order the markers are checked in.
pub open spec fn marker_of(line: Seq<char>) -> Option<Section> {
    if contains_seq(line, vertex_marker()) {
        Some(Section::Vertex)
    } else if contains_seq(line, fragment_marker()) {
        Some(Section::Fragment)
    } else {
        None
    }
}

/// `s` holds no newline character.
pub open spec fn no_nl(s: Seq<char>) -> bool {
    forall|i: int| 0 <= i < s.len() ==> s[i] != '\n'
}

/// Every element of `ls` holds no newline character.
pub open spec fn all_no_nl(ls: Seq<Seq<char>>) -> bool {
    forall|i: int| 0 <= i < ls.len() ==> no_nl(#[trigger] ls[i])
}

/// The raw lines of `s`: maximal newline-free runs, the separating
/// newlines dropped. Trailing content without a final newline still
/// forms a line, and a trailing newline adds no empty final line.
pub open spec fn split_lines(s: Seq<char>) -> Seq<Seq<char>>
    decreases s.len(),
{
    if s.len() == 0 {
        seq![]
    } else if s[0] == '\n' {
        seq![Seq::<char>::empty()] + split_lines(s.skip(1))
    } else {
        let rest = split_lines(s.skip(1));
        if rest.len() == 0 {
            seq![s]
        } else {
            seq![seq![s[0]] + rest[0]] + rest.skip(1)
        }
    }
}

/// `l` with one trailing carriage return dropped, if it ends in one.
pub open spec fn strip_cr(l: Seq<char>) -> Seq<char> {
    if l.len() > 0 && l[l.len() - 1] == '\r' {
        l.take(l.len() - 1)
    } else {
        l
    }
}

/// Every line with its one trailing carriage return dropped.
pub open spec fn strip_lines(ls: Seq<Seq<char>>) -> Seq<Seq<char>> {
    ls.map_values(|l: Seq<char>| strip_cr(l))
}

/// The lines of `s` as the parser reads them: split at each newline,
/// and a line's one trailing carriage return dropped, so that a
/// carriage-return-and-newline pair also breaks a line.
pub open spec fn lines_of(s: Seq<char>) -> Seq<Seq<char>> {
    strip_lines(split_lines(s))
}

/// Each line followed by a newline, concatenated.
pub open spec fn join_nl(ls: Seq<Seq<char>>) -> Seq<char>
    decreases ls.len(),
{
    if ls.len() == 0 {
        Seq::empty()
    } else {
        ls[0] + seq!['\n'] + join_nl(ls.skip(1))
    }
}

/// The active section after processing `ls` starting from section `cur`.
pub open spec fn sec_after(cur: Section, ls: Seq<Seq<char>>) -> Section
    decreases ls.len(),
{
    if ls.len() == 0 {
        cur
    } else {
        match marker_of(ls[0]) {
            Some(next) => sec_after(next, ls.skip(1)),
            None => sec_after(cur, ls.skip(1)),
        }
    }
}

/// No content line stands while no marker has yet been seen: every
/// non-marker line of `ls` is preceded by some marker line.
pub open spec fn orphan_free(cur: Section, ls: Seq<Seq<char>>) -> bool
    decreases ls.len(),
{
    if ls.len() == 0 {
        true
    } else {
        match marker_of(ls[0]) {
            Some(next) => orphan_free(next, ls.skip(1)),
            None => cur != Section::Inactive && orphan_free(cur, ls.skip(1)),
        }
    }
}

/// The non-marker lines of `ls` belonging to section `sec`, in order,
/// starting with `cur` active.
pub open spec fn section_lines(cur: Section, ls: Seq<Seq<char>>, sec: Section) -> Seq<Seq<char>>
    decreases ls.len(),
{
    if ls.len() == 0 {
        seq![]
    } else {
        match marker_of(ls[0]) {
            Some(next) => section_lines(next, ls.skip(1), sec),
            None => if cur == sec {
                seq![ls[0]] + section_lines(cur, ls.skip(1), sec)
            } else {
                section_lines(cur, ls.skip(1), sec)
            },
        }
    }
}

/// What parsing a whole shader file yields: each returned source is the
/// concatenation of its section's lines, each line followed by a newline,
/// marker lines excluded, whatever order the sections stand in. A file
/// with content before the first marker is rejected.
pub open spec fn parse_spec(s: Seq<char>) -> Result<(Seq<char>, Seq<char>), ()> {
    let ls = lines_of(s);
    if orphan_free(Section::Inactive, ls) {
        Ok(
            (
                join_nl(section_lines(Section::Inactive, ls, Section::Vertex)),
                join_nl(section_lines(Section::Inactive, ls, Section::Fragment)),
            ),
        )
    } else {
        Err(())
    }
}

proof fn lemma_strip_lines_push(ls: Seq<Seq<char>>, l: Seq<char>)
    ensures
        strip_lines(ls.push(l)) == strip_lines(ls).push(strip_cr(l)),
{
    assert(strip_lines(ls.push(l)) =~= strip_lines(ls).push(strip_cr(l)));
}

proof fn lemma_strip_lines_concat(a: Seq<Seq<char>>, b: Seq<Seq<char>>)
    ensures
        strip_lines(a + b) == strip_lines(a) + strip_lines(b),
{
    assert(strip_lines(a + b) =~= strip_lines(a) + strip_lines(b));
}

proof fn lemma_join_nl_concat(a: Seq<Seq<char>>, b: Seq<Seq<char>>)
    ensures
        join_nl(a + b) == join_nl(a) + join_nl(b),
    decreases a.len(),
{
    if a.len() == 0 {
        assert(a + b =~= b);
        assert(join_nl(a) + join_nl(b) =~= join_nl(b));
    } else {
        assert((a + b).skip(1) =~= a.skip(1) + b);
        lemma_join_nl_concat(a.skip(1), b);
        assert(join_nl(a + b) =~= join_nl(a) + join_nl(b));
    }
}

proof fn lemma_join_nl_single(l: Seq<char>)
    ensures
        join_nl(seq![l]) == l + seq!['\n'],
{
    assert(seq![l].skip(1) =~= Seq::<Seq<char>>::empty());
    assert(join_nl(Seq::<Seq<char>>::empty()) == Seq::<char>::empty());
    assert(join_nl(seq![l]) =~= l + seq!['\n']);
}

proof fn lemma_sec_after_concat(cur: Section, a: Seq<Seq<char>>, b: Seq<Seq<char>>)
    ensures
        sec_after(cur, a + b) == sec_after(sec_after(cur, a), b),
    decreases a.len(),
{
    if a.len() == 0 {
        assert(a + b =~= b);
    } else {
        assert((a + b).skip(1) =~= a.skip(1) + b);
        match marker_of(a[0]) {
            Some(next) => lemma_sec_after_concat(next, a.skip(1), b),
            None => lemma_sec_after_concat(cur, a.skip(1), b),
        }
    }
}

proof fn lemma_orphan_free_concat(cur: Section, a: Seq<Seq<char>>, b: Seq<Seq<char>>)
    ensures
        orphan_free(cur, a + b) == (orphan_free(cur, a) && orphan_free(sec_after(cur, a), b)),
    decreases a.len(),
{
    if a.len() == 0 {
        assert(a + b =~= b);
    } else {
        assert((a + b).skip(1) =~= a.skip(1) + b);
        match marker_of(a[0]) {
            Some(next) => lemma_orphan_free_concat(next, a.skip(1), b),
            None => lemma_orphan_free_concat(cur, a.skip(1), b),
        }
    }
}

proof fn lemma_section_lines_concat(cur: Section, a: Seq<Seq<char>>, b: Seq<Seq<char>>, sec: Section)
    ensures
        section_lines(cur, a + b, sec) == section_lines(cur, a, sec) + section_lines(
            sec_after(cur, a),
            b,
            sec,
        ),
    decreases a.len(),
{
    if a.len() == 0 {
        assert(a + b =~= b);
        assert(section_lines(cur, a, sec) + section_lines(cur, b, sec) =~= section_lines(
            cur,
            b,
            sec,
        ));
    } else {
        assert((a + b).skip(1) =~= a.skip(1) + b);
        match marker_of(a[0]) {
            Some(next) => {
                lemma_section_lines_concat(next, a.skip(1), b, sec);
            },
            None => {
                lemma_section_lines_concat(cur, a.skip(1), b, sec);
                if cur == sec {
                    assert(seq![a[0]] + (section_lines(cur, a.skip(1), sec) + section_lines(
                        sec_after(cur, a),
                        b,
                        sec,
                    )) =~= (seq![a[0]] + section_lines(cur, a.skip(1), sec)) + section_lines(
                        sec_after(cur, a),
                        b,
                        sec,
                    ));
                }
            },
        }
    }
}

/// What one single line contributes: the section it leaves active, whether
/// it is an orphan, and which section collects it.
proof fn lemma_parse_single(cur: Section, l: Seq<char>, sec: Section)
    ensures
        sec_after(cur, seq![l]) == (match marker_of(l) {
            Some(next) => next,
            None => cur,
        }),
        orphan_free(cur, seq![l]) == (marker_of(l) is Some || cur != Section::Inactive),
        section_lines(cur, seq![l], sec) == (if marker_of(l) is None && cur == sec {
            seq![l]
        } else {
            Seq::<Seq<char>>::empty()
        }),
{
    let single = seq![l];
    assert(single[0] == l);
    assert(single.skip(1) =~= Seq::<Seq<char>>::empty());
    match marker_of(l) {
        Some(next) => {
            assert(sec_after(next, single.skip(1)) == next);
            assert(orphan_free(next, single.skip(1)));
            assert(section_lines(next, single.skip(1), sec) == Seq::<Seq<char>>::empty());
        },
        None => {
            assert(sec_after(cur, single.skip(1)) == cur);
            assert(orphan_free(cur, single.skip(1)));
            assert(section_lines(cur, single.skip(1), sec) == Seq::<Seq<char>>::empty());
            if cur == sec {
                assert(seq![l] + section_lines(cur, single.skip(1), sec) =~= seq![l]);
            }
        },
    }
}

/// Unfolds the parse state one line at a time: what appending one more
/// line does to the active section, the orphan check and each section's
/// collected lines.
proof fn lemma_parse_push(ls: Seq<Seq<char>>, l: Seq<char>)
    ensures
        sec_after(Section::Inactive, ls.push(l)) == (match marker_of(l) {
            Some(next) => next,
            None => sec_after(Section::Inactive, ls),
        }),
        orphan_free(Section::Inactive, ls.push(l)) == (orphan_free(Section::Inactive, ls) && (
        marker_of(l) is Some || sec_after(Section::Inactive, ls) != Section::Inactive)),
        section_lines(Section::Inactive, ls.push(l), Section::Vertex) == (if marker_of(l) is None
            && sec_after(Section::Inactive, ls) == Section::Vertex {
            section_lines(Section::Inactive, ls, Section::Vertex).push(l)
        } else {
            section_lines(Section::Inactive, ls, Section::Vertex)
        }),
        section_lines(Section::Inactive, ls.push(l), Section::Fragment) == (if marker_of(l) is None
            && sec_after(Section::Inactive, ls) == Section::Fragment {
            section_lines(Section::Inactive, ls, Section::Fragment).push(l)
        } else {
            section_lines(Section::Inactive, ls, Section::Fragment)
        }),
{
    let single = seq![l];
    assert(ls.push(l) =~= ls + single);
    let mid = sec_after(Section::Inactive, ls);
    lemma_sec_after_concat(Section::Inactive, ls, single);
    lemma_orphan_free_concat(Section::Inactive, ls, single);
    lemma_section_lines_concat(Section::Inactive, ls, single, Section::Vertex);
    lemma_section_lines_concat(Section::Inactive, ls, single, Section::Fragment);
    lemma_parse_single(mid, l, Section::Vertex);
    lemma_parse_single(mid, l, Section::Fragment);
    assert(section_lines(Section::Inactive, ls, Section::Vertex) + Seq::<Seq<char>>::empty()
        =~= section_lines(Section::Inactive, ls, Section::Vertex));
    assert(section_lines(Section::Inactive, ls, Section::Fragment) + Seq::<Seq<char>>::empty()
        =~= section_lines(Section::Inactive, ls, Section::Fragment));
    assert(section_lines(Section::Inactive, ls, Section::Vertex) + seq![l] =~= section_lines(
        Section::Inactive,
        ls,
        Section::Vertex,
    ).push(l));
    assert(section_lines(Section::Inactive, ls, Section::Fragment) + seq![l] =~= section_lines(
        Section::Inactive,
        ls,
        Section::Fragment,
    ).push(l));
}

/// A newline-free line followed by a newline starts the line decomposition.
proof fn lemma_split_lines_line_nl(l: Seq<char>, rest: Seq<char>)
    requires
        no_nl(l),
    ensures
        split_lines(l + seq!['\n'] + rest) == seq![l] + split_lines(rest),
    decreases l.len(),
{
    let s = l + seq!['\n'] + rest;
    if l.len() == 0 {
        assert(s =~= seq!['\n'] + rest);
        assert(s[0] == '\n');
        assert(s.skip(1) =~= rest);
        assert(l =~= Seq::<char>::empty());
        assert(seq![l] =~~= seq![Seq::<char>::empty()]);
    } else {
        assert(s[0] == l[0]);
        assert(s[0] != '\n');
        assert(s.skip(1) =~= l.skip(1) + seq!['\n'] + rest);
        lemma_split_lines_line_nl(l.skip(1), rest);
        let inner = split_lines(s.skip(1));
        assert(inner == seq![l.skip(1)] + split_lines(rest));
        assert(inner.len() > 0);
        assert(inner[0] == l.skip(1));
        assert(seq![s[0]] + inner[0] =~= l);
        assert(inner.skip(1) =~= split_lines(rest));
        assert(split_lines(s) =~= seq![l] + split_lines(rest));
    }
}

/// The lines of the join of newline-free lines, followed by anything,
/// are those lines followed by the lines of the remainder.
proof fn lemma_split_lines_join(ls: Seq<Seq<char>>, rest: Seq<char>)
    requires
        all_no_nl(ls),
    ensures
        split_lines(join_nl(ls) + rest) == ls + split_lines(rest),
    decreases ls.len(),
{
    if ls.len() == 0 {
        assert(join_nl(ls) + rest =~= rest);
        assert(ls + split_lines(rest) =~= split_lines(rest));
    } else {
        assert(all_no_nl(ls.skip(1)));
        lemma_split_lines_join(ls.skip(1), rest);
        assert(join_nl(ls) + rest =~= ls[0] + seq!['\n'] + (join_nl(ls.skip(1)) + rest));
        lemma_split_lines_line_nl(ls[0], join_nl(ls.skip(1)) + rest);
        assert(seq![ls[0]] + (ls.skip(1) + split_lines(rest)) =~= ls + split_lines(rest));
    }
}

/// A nonempty newline-free tail is a single line; an empty one is none.
proof fn lemma_split_lines_tail(t: Seq<char>)
    requires
        no_nl(t),
    ensures
        split_lines(t) == (if t.len() == 0 {
            Seq::<Seq<char>>::empty()
        } else {
            seq![t]
        }),
    decreases t.len(),
{
    if t.len() > 0 {
        assert(t[0] != '\n');
        lemma_split_lines_tail(t.skip(1));
        if t.len() > 1 {
            assert(split_lines(t.skip(1)) == seq![t.skip(1)]);
            assert(seq![t[0]] + t.skip(1) =~= t);
            assert(split_lines(t) =~= seq![t]);
        } else {
            assert(t.subrange(0, 1) =~= t);
        }
    }
}

/// Every element of `ls` is an ordinary content line, not a marker line.
pub open spec fn all_plain(ls: Seq<Seq<char>>) -> bool {
    forall|i: int| 0 <= i < ls.len() ==> marker_of(#[trigger] ls[i]) is None
}

/// No element of `ls` ends in a carriage return: stripping changes none
/// of them.
pub open spec fn no_trailing_cr(ls: Seq<Seq<char>>) -> bool {
    forall|i: int| 0 <= i < ls.len() ==> strip_cr(#[trigger] ls[i]) == ls[i]
}

/// One shader file text holding the two given section bodies: the vertex
/// marker line, the vertex body, the fragment marker line, the fragment
/// body.
pub open spec fn serialize_spec(v: Seq<char>, f: Seq<char>) -> Seq<char> {
    vertex_marker() + seq!['\n'] + v + fragment_marker() + seq!['\n'] + f
}

proof fn lemma_lines_no_nl(s: Seq<char>)
    ensures
        all_no_nl(split_lines(s)),
    decreases s.len(),
{
    if s.len() == 0 {
    } else if s[0] == '\n' {
        lemma_lines_no_nl(s.skip(1));
        let ls = split_lines(s);
        assert forall|i: int| 0 <= i < ls.len() implies no_nl(#[trigger] ls[i]) by {
            if i > 0 {
                assert(ls[i] == split_lines(s.skip(1))[i - 1]);
            }
        }
    } else {
        lemma_lines_no_nl(s.skip(1));
        let rest = split_lines(s.skip(1));
        let ls = split_lines(s);
        if rest.len() == 0 {
            if s.len() > 1 {
                assert(s.skip(1)[0] == s[1]);
                assert(rest.len() > 0);
            }
            assert(s.len() == 1);
            assert forall|i: int| 0 <= i < ls.len() implies no_nl(#[trigger] ls[i]) by {
                assert(ls[i] == s);
                assert forall|t: int| 0 <= t < s.len() implies s[t] != '\n' by {
                    assert(t == 0);
                }
            }
        } else {
            assert forall|i: int| 0 <= i < ls.len() implies no_nl(#[trigger] ls[i]) by {
                if i == 0 {
                    assert(ls[0] == seq![s[0]] + rest[0]);
                    assert(no_nl(rest[0]));
                    assert forall|t: int| 0 <= t < ls[0].len() implies ls[0][t] != '\n' by {
                        if t > 0 {
                            assert(ls[0][t] == rest[0][t - 1]);
                        }
                    }
                } else {
                    assert(ls[i] == rest[i]);
                }
            }
        }
    }
}

proof fn lemma_section_lines_plain(cur: Section, ls: Seq<Seq<char>>, sec: Section)
    requires
        all_no_nl(ls),
        no_trailing_cr(ls),
    ensures
        all_plain(section_lines(cur, ls, sec)),
        all_no_nl(section_lines(cur, ls, sec)),
        no_trailing_cr(section_lines(cur, ls, sec)),
    decreases ls.len(),
{
    if ls.len() == 0 {
    } else {
        assert(all_no_nl(ls.skip(1)) && no_trailing_cr(ls.skip(1))) by {
            assert(forall|i: int|
                0 <= i < ls.skip(1).len() ==> ls.skip(1)[i] == #[trigger] ls[i + 1]);
        }
        match marker_of(ls[0]) {
            Some(next) => lemma_section_lines_plain(next, ls.skip(1), sec),
            None => {
                lemma_section_lines_plain(cur, ls.skip(1), sec);
                if cur == sec {
                    let out = section_lines(cur, ls, sec);
                    let rest = section_lines(cur, ls.skip(1), sec);
                    assert(out == seq![ls[0]] + rest);
                    assert forall|i: int| 0 <= i < out.len() implies marker_of(
                        #[trigger] out[i],
                    ) is None && no_nl(out[i]) && strip_cr(out[i]) == out[i] by {
                        if i == 0 {
                            assert(out[0] == ls[0]);
                            assert(no_nl(ls[0]));
                            assert(strip_cr(ls[0]) == ls[0]);
                        } else {
                            assert(out[i] == rest[i - 1]);
                        }
                    }
                }
            },
        }
    }
}

/// Stripping is the identity on lines without a trailing carriage
/// return.
proof fn lemma_strip_identity(ls: Seq<Seq<char>>)
    requires
        no_trailing_cr(ls),
    ensures
        strip_lines(ls) == ls,
{
    assert(strip_lines(ls) =~= ls);
}

/// A marker line, one section's lines, the other marker line and the
/// other section's lines: none ends in a carriage return.
proof fn lemma_no_cr_concat(vm: Seq<char>, a: Seq<Seq<char>>, fm: Seq<char>, b: Seq<Seq<char>>)
    requires
        strip_cr(vm) == vm,
        strip_cr(fm) == fm,
        no_trailing_cr(a),
        no_trailing_cr(b),
    ensures
        no_trailing_cr(seq![vm] + (a + (seq![fm] + b))),
{
    let full = seq![vm] + (a + (seq![fm] + b));
    assert forall|t: int| 0 <= t < full.len() implies strip_cr(#[trigger] full[t]) == full[t] by {
        if t == 0 {
            assert(full[t] == vm);
        } else if t <= a.len() {
            assert(full[t] == a[t - 1]);
            assert(strip_cr(a[t - 1]) == a[t - 1]);
        } else if t == a.len() + 1 {
            assert(full[t] == fm);
        } else {
            assert(full[t] == b[t - a.len() - 2]);
            assert(strip_cr(b[t - a.len() - 2]) == b[t - a.len() - 2]);
        }
    }
}

/// Dropping trailing carriage returns never introduces a newline.
proof fn lemma_strip_preserves_no_nl(ls: Seq<Seq<char>>)
    requires
        all_no_nl(ls),
    ensures
        all_no_nl(strip_lines(ls)),
{
    assert forall|i: int| 0 <= i < strip_lines(ls).len() implies no_nl(
        #[trigger] strip_lines(ls)[i],
    ) by {
        assert(no_nl(ls[i]));
        let l = ls[i];
        assert(strip_lines(ls)[i] == strip_cr(l));
        assert forall|t: int| 0 <= t < strip_cr(l).len() implies strip_cr(l)[t] != '\n' by {
            assert(strip_cr(l)[t] == l[t]);
        }
    }
}

/// Over a run of content lines no marker switches the section: the lines
/// land in the active section whole, or nowhere.
proof fn lemma_plain_run(cur: Section, ls: Seq<Seq<char>>, sec: Section)
    requires
        all_plain(ls),
    ensures
        sec_after(cur, ls) == cur,
        orphan_free(cur, ls) == (ls.len() == 0 || cur != Section::Inactive),
        section_lines(cur, ls, sec) == (if cur == sec {
            ls
        } else {
            Seq::<Seq<char>>::empty()
        }),
    decreases ls.len(),
{
    if ls.len() == 0 {
    } else {
        assert(all_plain(ls.skip(1))) by {
            assert(forall|i: int|
                0 <= i < ls.skip(1).len() ==> ls.skip(1)[i] == #[trigger] ls[i + 1]);
        }
        assert(marker_of(ls[0]) is None);
        lemma_plain_run(cur, ls.skip(1), sec);
        if cur == sec {
            assert(seq![ls[0]] + ls.skip(1) =~= ls);
        }
    }
}

/// The two marker literals: neither holds a newline, and each is a marker
/// line for its own section. The fragment marker does not contain the
/// vertex marker, so the vertex-first check still classifies it right.
proof fn lemma_markers()
    ensures
        no_nl(vertex_marker()),
        no_nl(fragment_marker()),
        marker_of(vertex_marker()) == Some(Section::Vertex),
        marker_of(fragment_marker()) == Some(Section::Fragment),
        strip_cr(vertex_marker()) == vertex_marker(),
        strip_cr(fragment_marker()) == fragment_marker(),
{
    reveal_strlit("#shader vertex");
    reveal_strlit("#shader fragment");
    let vm = vertex_marker();
    let fm = fragment_marker();
    assert(vm.len() == 14);
    assert(fm.len() == 16);
    assert(vm[13] == 'x');
    assert(fm[15] == 't');
    assert forall|i: int| 0 <= i < vm.len() implies vm[i] != '\n' by {
        assert(0 <= i < 14);
    }
    assert forall|i: int| 0 <= i < fm.len() implies fm[i] != '\n' by {
        assert(0 <= i < 16);
    }
    assert(vm.subrange(0, 0 + vm.len() as int) =~= vm);
    assert(contains_seq(vm, vm));
    assert(fm.subrange(0, 0 + fm.len() as int) =~= fm);
    assert(contains_seq(fm, fm));
    assert forall|i: int|
        0 <= i && i + vm.len() <= fm.len() implies #[trigger] fm.subrange(i, i + vm.len())
        != vm by {
        if i == 0 {
            assert(fm.subrange(0, 14)[8] == 'f');
            assert(vm[8] == 'v');
        } else if i == 1 {
            assert(fm.subrange(1, 15)[0] == 's');
            assert(vm[0] == '#');
        } else {
            assert(i == 2);
            assert(fm.subrange(2, 16)[0] == 'h');
            assert(vm[0] == '#');
        }
    }
    assert(!contains_seq(fm, vm));
}

/// The two sources a successful parse returns, re-serialized with
/// their markers reinserted, split back into exactly the two marker
/// lines and the two runs of section lines.
#[verifier::rlimit(100)]
proof fn lemma_serialize_lines(v: Seq<char>, f: Seq<char>, lv: Seq<Seq<char>>, lf: Seq<Seq<char>>)
    requires
        all_no_nl(lv),
        all_no_nl(lf),
        no_trailing_cr(lv),
        no_trailing_cr(lf),
        v == join_nl(lv),
        f == join_nl(lf),
    ensures
        lines_of(serialize_spec(v, f)) == seq![vertex_marker()] + (lv + (seq![fragment_marker()]
            + lf)),
{
    lemma_markers();
    let vm = vertex_marker();
    let fm = fragment_marker();
    let ser = serialize_spec(v, f);
    let r3 = join_nl(lf);
    let r2 = fm + seq!['\n'] + r3;
    let r1 = join_nl(lv) + r2;
    assert(ser =~= vm + seq!['\n'] + r1);
    lemma_split_lines_line_nl(vm, r1);
    lemma_split_lines_join(lv, r2);
    assert(r2 =~= fm + seq!['\n'] + r3);
    lemma_split_lines_line_nl(fm, r3);
    lemma_split_lines_join(lf, Seq::<char>::empty());
    assert(join_nl(lf) + Seq::<char>::empty() =~= join_nl(lf));
    assert(split_lines(Seq::<char>::empty()) =~= Seq::<Seq<char>>::empty());
    assert(lf + Seq::<Seq<char>>::empty() =~= lf);
    assert(split_lines(r3) == lf);
    assert(split_lines(r2) == seq![fm] + lf);
    assert(split_lines(r1) == lv + (seq![fm] + lf));
    let full = split_lines(ser);
    assert(full == seq![vm] + (lv + (seq![fm] + lf)));
    // no line of the re-serialized text ends in a carriage return, so
    // stripping leaves the split untouched
    lemma_no_cr_concat(vm, lv, fm, lf);
    lemma_strip_identity(full);
    assert(lines_of(ser) == full);
}

proof fn lemma_run_two_sections(lv: Seq<Seq<char>>, lf: Seq<Seq<char>>)
    requires
        all_plain(lv),
        all_plain(lf),
    ensures
        orphan_free(
            Section::Inactive,
            seq![vertex_marker()] + (lv + (seq![fragment_marker()] + lf)),
        ),
        section_lines(
            Section::Inactive,
            seq![vertex_marker()] + (lv + (seq![fragment_marker()] + lf)),
            Section::Vertex,
        ) == lv,
        section_lines(
            Section::Inactive,
            seq![vertex_marker()] + (lv + (seq![fragment_marker()] + lf)),
            Section::Fragment,
        ) == lf,
{
    lemma_markers();
    let vm = vertex_marker();
    let fm = fragment_marker();
    let full = seq![vm] + (lv + (seq![fm] + lf));
    let tail1 = lv + (seq![fm] + lf);
    assert(full =~= seq![vm] + tail1);
    lemma_parse_single(Section::Inactive, vm, Section::Vertex);
    lemma_parse_single(Section::Inactive, vm, Section::Fragment);
    lemma_sec_after_concat(Section::Inactive, seq![vm], tail1);
    lemma_orphan_free_concat(Section::Inactive, seq![vm], tail1);
    lemma_section_lines_concat(Section::Inactive, seq![vm], tail1, Section::Vertex);
    lemma_section_lines_concat(Section::Inactive, seq![vm], tail1, Section::Fragment);
    let tail2 = seq![fm] + lf;
    lemma_sec_after_concat(Section::Vertex, lv, tail2);
    lemma_orphan_free_concat(Section::Vertex, lv, tail2);
    lemma_section_lines_concat(Section::Vertex, lv, tail2, Section::Vertex);
    lemma_section_lines_concat(Section::Vertex, lv, tail2, Section::Fragment);
    lemma_plain_run(Section::Vertex, lv, Section::Vertex);
    lemma_plain_run(Section::Vertex, lv, Section::Fragment);
    lemma_parse_single(Section::Vertex, fm, Section::Vertex);
    lemma_parse_single(Section::Vertex, fm, Section::Fragment);
    lemma_sec_after_concat(Section::Vertex, seq![fm], lf);
    lemma_orphan_free_concat(Section::Vertex, seq![fm], lf);
    lemma_section_lines_concat(Section::Vertex, seq![fm], lf, Section::Vertex);
    lemma_section_lines_concat(Section::Vertex, seq![fm], lf, Section::Fragment);
    lemma_plain_run(Section::Fragment, lf, Section::Vertex);
    lemma_plain_run(Section::Fragment, lf, Section::Fragment);
    assert(orphan_free(Section::Inactive, full));
    assert(section_lines(Section::Inactive, full, Section::Vertex) =~= lv);
    assert(section_lines(Section::Inactive, full, Section::Fragment) =~= lf);
}

/// Parsing is idempotent on its own output: the two sources a successful
/// parse returns, re-serialized with their markers reinserted and parsed
/// again, yield the same pair back. The one proviso: no parsed line may
/// still end in a carriage return, since re-parsing would strip it once
/// more.
pub proof fn lemma_parse_reserialize(s: Seq<char>, v: Seq<char>, f: Seq<char>)
    requires
        parse_spec(s) == Ok::<(Seq<char>, Seq<char>), ()>((v, f)),
        no_trailing_cr(lines_of(s)),
    ensures
        parse_spec(serialize_spec(v, f)) == Ok::<(Seq<char>, Seq<char>), ()>((v, f)),
{
    let ls = lines_of(s);
    let lv = section_lines(Section::Inactive, ls, Section::Vertex);
    let lf = section_lines(Section::Inactive, ls, Section::Fragment);
    lemma_lines_no_nl(s);
    lemma_strip_preserves_no_nl(split_lines(s));
    lemma_section_lines_plain(Section::Inactive, ls, Section::Vertex);
    lemma_section_lines_plain(Section::Inactive, ls, Section::Fragment);
    assert(v == join_nl(lv));
    assert(f == join_nl(lf));
    lemma_serialize_lines(v, f, lv, lf);
    lemma_run_two_sections(lv, lf);
    assert(parse_spec(serialize_spec(v, f)) == Ok::<(Seq<char>, Seq<char>), ()>((v, f)));
}

/// Relies on std's String::push: appends exactly the given character.
#[verifier::external_body]
fn push_char(s: &mut String, c: char)
    ensures
        final(s)@ == old(s)@.push(c),
{
    s.push(c)
}

/// Substring search, specified against `contains_seq`.
fn contains_sub(hay: &str, needle: &str) -> (b: bool)
    ensures
        b == contains_seq(hay@, needle@),
{
    let hn = hay.unicode_len();
    let nn = needle.unicode_len();
    if nn > hn {
        assert(!contains_seq(hay@, needle@));
        return false;
    }
    let mut i: usize = 0;
    while i <= hn - nn
        invariant
            nn <= hn,
            hn == hay@.len(),
            nn == needle@.len(),
            i <= hn - nn + 1,
            forall|k: int|
                0 <= k < i ==> #[trigger] hay@.subrange(k, k + nn as int) != needle@,
        decreases hn - nn - i + 1,
    {
        let mut j: usize = 0;
        let mut matched = true;
        while j < nn
            invariant
                nn <= hn,
                hn == hay@.len(),
                nn == needle@.len(),
                i <= hn - nn,
                j <= nn,
                matched == (forall|t: int| 0 <= t < j ==> hay@[i + t] == needle@[t]),
            decreases nn - j,
        {
            if hay.get_char(i + j) != needle.get_char(j) {
                matched = false;
                j = nn;
            } else {
                j = j + 1;
            }
        }
        if matched {
            proof {
                assert(hay@.subrange(i as int, i + nn) =~= needle@);
            }
            return true;
        }
        proof {
            let w = choose|t: int| 0 <= t < nn && hay@[i + t] != needle@[t];
            assert(hay@.subrange(i as int, i + nn)[w] != needle@[w]);
        }
        i = i + 1;
    }
    proof {
        assert forall|k: int| 0 <= k && k + needle@.len() <= hay@.len() implies #[trigger] hay@
            .subrange(k, k + needle@.len()) != needle@ by {
            assert(k < i);
        }
    }
    false
}

/// The completed line as the parser reads it: one trailing carriage
/// return dropped, so that a carriage-return-and-newline pair also
/// breaks a line.
fn stripped_line<'a>(line: &'a String) -> (r: &'a str)
    ensures
        r@ == strip_cr(line@),
{
    let n = line.unicode_len();
    if n > 0 && line.as_str().get_char(n - 1) == '\r' {
        let r = line.as_str().substring_char(0, n - 1);
        proof {
            assert(r@ =~= strip_cr(line@));
        }
        r
    } else {
        line.as_str()
    }
}

/// Applies one completed line to the parse state: a marker line switches
/// the active section and is discarded; any other line is appended, plus
/// a newline, to the active section. Returns false for an orphan line,
/// one standing before any marker.
fn handle_line(line: &str, vertex: &mut String, fragment: &mut String, cur: &mut Section) -> (ok:
    bool)
    ensures
        match marker_of(line@) {
            Some(next) => ok && *final(cur) == next && final(vertex)@ == old(vertex)@
                && final(fragment)@ == old(fragment)@,
            None => {
                &&& *final(cur) == *old(cur)
                &&& ok == (*old(cur) != Section::Inactive)
                &&& final(vertex)@ == (if *old(cur) == Section::Vertex {
                    old(vertex)@ + line@ + seq!['\n']
                } else {
                    old(vertex)@
                })
                &&& final(fragment)@ == (if *old(cur) == Section::Fragment {
                    old(fragment)@ + line@ + seq!['\n']
                } else {
                    old(fragment)@
                })
            },
        },
{
    if contains_sub(line, "#shader vertex") {
        *cur = Section::Vertex;
        true
    } else if contains_sub(line, "#shader fragment") {
        *cur = Section::Fragment;
        true
    } else {
        match *cur {
            Section::Inactive => false,
            Section::Vertex => {
                vertex.append(line);
                push_char(vertex, '\n');
                assert(vertex@ =~= old(vertex)@ + line@ + seq!['\n']);
                true
            },
            Section::Fragment => {
                fragment.append(line);
                push_char(fragment, '\n');
                assert(fragment@ =~= old(fragment)@ + line@ + seq!['\n']);
                true
            },
        }
    }
}

/// Splits one shader source text into its vertex and fragment sources.
///
/// A line containing `#shader vertex` or `#shader fragment` switches the
/// section being filled and is itself discarded; every other line is
/// appended, with a trailing newline, to the active section, its one
/// trailing carriage return dropped. Content before the first marker is
/// rejected as malformed.
pub fn parse_shader(source: &str) -> (r: Result<ShaderSource, CustomError>)
    ensures
        match r {
            Ok(src) => parse_spec(source@) == Ok::<(Seq<char>, Seq<char>), ()>(
                (src.vertex@, src.fragment@),
            ),
            Err(e) => parse_spec(source@) is Err && e matches CustomError::MalformedShaderSource,
        },
{
    let n = source.unicode_len();
    let mut vertex = String::new();
    let mut fragment = String::new();
    let mut cur_sec = Section::Inactive;
    let mut cur_line = String::new();
    let ghost mut raw_complete: Seq<Seq<char>> = Seq::empty();
    let ghost mut complete: Seq<Seq<char>> = Seq::empty();
    let mut i: usize = 0;
    while i < n
        invariant
            n == source@.len(),
            i <= n,
            join_nl(raw_complete) + cur_line@ == source@.take(i as int),
            all_no_nl(raw_complete),
            no_nl(cur_line@),
            complete == strip_lines(raw_complete),
            cur_sec == sec_after(Section::Inactive, complete),
            orphan_free(Section::Inactive, complete),
            vertex@ == join_nl(section_lines(Section::Inactive, complete, Section::Vertex)),
            fragment@ == join_nl(section_lines(Section::Inactive, complete, Section::Fragment)),
        decreases n - i,
    {
        let c = source.get_char(i);
        if c == '\n' {
            let ghost raw_prev = raw_complete;
            let ghost prev = complete;
            let ghost raw_line = cur_line@;
            let line_s = stripped_line(&cur_line);
            let ghost line = line_s@;
            let ok = handle_line(line_s, &mut vertex, &mut fragment, &mut cur_sec);
            proof {
                raw_complete = raw_complete.push(raw_line);
                complete = complete.push(line);
                lemma_strip_lines_push(raw_prev, raw_line);
                lemma_parse_push(prev, line);
                lemma_join_nl_concat(raw_prev, seq![raw_line]);
                lemma_join_nl_single(raw_line);
                assert(raw_prev + seq![raw_line] =~= raw_complete);
                assert(prev + seq![line] =~= complete);
                assert(join_nl(raw_complete) =~= source@.take(i as int).push('\n'));
                assert(source@.take(i + 1) =~= source@.take(i as int).push(source@[i as int]));
                if marker_of(line) is None && sec_after(Section::Inactive, prev)
                    == Section::Vertex {
                    lemma_join_nl_concat(
                        section_lines(Section::Inactive, prev, Section::Vertex),
                        seq![line],
                    );
                    lemma_join_nl_single(line);
                    assert(section_lines(Section::Inactive, prev, Section::Vertex) + seq![line]
                        =~= section_lines(Section::Inactive, complete, Section::Vertex));
                }
                if marker_of(line) is None && sec_after(Section::Inactive, prev)
                    == Section::Fragment {
                    lemma_join_nl_concat(
                        section_lines(Section::Inactive, prev, Section::Fragment),
                        seq![line],
                    );
                    lemma_join_nl_single(line);
                    assert(section_lines(Section::Inactive, prev, Section::Fragment) + seq![line]
                        =~= section_lines(Section::Inactive, complete, Section::Fragment));
                }
            }
            if !ok {
                proof {
                    let rest = source@.skip(i + 1);
                    assert(source@ =~= source@.take(i + 1) + rest);
                    assert(join_nl(raw_complete) =~= source@.take(i + 1));
                    lemma_split_lines_join(raw_complete, rest);
                    assert(split_lines(source@) =~= raw_complete + split_lines(rest));
                    lemma_strip_lines_concat(raw_complete, split_lines(rest));
                    assert(lines_of(source@) =~= complete + strip_lines(split_lines(rest)));
                    lemma_orphan_free_concat(
                        Section::Inactive,
                        complete,
                        strip_lines(split_lines(rest)),
                    );
                }
                return Err(CustomError::MalformedShaderSource);
            }
            cur_line = String::new();
            proof {
                assert(join_nl(raw_complete) + cur_line@ =~= source@.take(i + 1));
            }
        } else {
            push_char(&mut cur_line, c);
            proof {
                assert(source@.take(i + 1) =~= source@.take(i as int).push(source@[i as int]));
                assert(join_nl(raw_complete) + cur_line@ =~= source@.take(i + 1));
            }
        }
        i = i + 1;
    }
    proof {
        assert(source@.take(n as int) =~= source@);
    }
    if cur_line.unicode_len() > 0 {
        let ghost raw_prev = raw_complete;
        let ghost prev = complete;
        let ghost raw_line = cur_line@;
        let line_s = stripped_line(&cur_line);
        let ghost line = line_s@;
        let ok = handle_line(line_s, &mut vertex, &mut fragment, &mut cur_sec);
        proof {
            raw_complete = raw_complete.push(raw_line);
            complete = complete.push(line);
            lemma_strip_lines_push(raw_prev, raw_line);
            lemma_parse_push(prev, line);
            lemma_split_lines_join(raw_prev, raw_line);
            lemma_split_lines_tail(raw_line);
            assert(raw_prev + seq![raw_line] =~= raw_complete);
            assert(prev + seq![line] =~= complete);
            assert(split_lines(source@) == raw_complete);
            assert(lines_of(source@) == complete);
            if marker_of(line) is None && sec_after(Section::Inactive, prev) == Section::Vertex {
                lemma_join_nl_concat(
                    section_lines(Section::Inactive, prev, Section::Vertex),
                    seq![line],
                );
                lemma_join_nl_single(line);
                assert(section_lines(Section::Inactive, prev, Section::Vertex) + seq![line]
                    =~= section_lines(Section::Inactive, complete, Section::Vertex));
            }
            if marker_of(line) is None && sec_after(Section::Inactive, prev) == Section::Fragment {
                lemma_join_nl_concat(
                    section_lines(Section::Inactive, prev, Section::Fragment),
                    seq![line],
                );
                lemma_join_nl_single(line);
                assert(section_lines(Section::Inactive, prev, Section::Fragment) + seq![line]
                    =~= section_lines(Section::Inactive, complete, Section::Fragment));
            }
        }
        if !ok {
            proof {
                assert(!orphan_free(Section::Inactive, complete));
            }
            return Err(CustomError::MalformedShaderSource);
        }
        proof {
            assert(orphan_free(Section::Inactive, complete));
            assert(vertex@ == join_nl(section_lines(Section::Inactive, complete, Section::Vertex)));
            assert(fragment@ == join_nl(
                section_lines(Section::Inactive, complete, Section::Fragment),
            ));
        }
    } else {
        proof {
            lemma_split_lines_join(raw_complete, cur_line@);
            assert(source@ =~= join_nl(raw_complete) + cur_line@);
            assert(split_lines(cur_line@) =~= Seq::<Seq<char>>::empty());
            assert(split_lines(source@) =~= raw_complete);
        }
    }
    proof {
        assert(lines_of(source@) == complete);
        assert(parse_spec(source@) == Ok::<(Seq<char>, Seq<char>), ()>((vertex@, fragment@)));
    }
    Ok(ShaderSource { vertex, fragment })
}

} // verus!
