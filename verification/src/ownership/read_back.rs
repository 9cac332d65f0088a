//! Reading the generated CODEOWNERS file back: what `for-team` finds in the
//! file that `generate` writes.
use vstd::prelude::*;

use crate::sort::{lemma_sorted_set, sorted_set};
use crate::text::{
    first_index_of, is_prefix, join_spec, lemma_first_index_of_bound, lines_state, replace_spec,
    is_suffix, split_once_spec, strip_cr,
};

use crate::project::{teams_by_name_spec, PackageType, ProjectView};
use crate::text::{lines_spec, trim_start_spec};

use super::file_generator::{disclaimer_spec, generated_file_spec, section_spec, sections_spec};
use super::mapper::directory_mapper::directory_entries_spec;
use super::mapper::package_mapper::package_entries_spec;
use super::mapper::team_file_mapper::team_file_entries_spec;
use super::mapper::team_gem_mapper::team_gem_entries_spec;
use super::mapper::team_glob_mapper::team_glob_entries_spec;
use super::mapper::team_yml_mapper::team_yml_entries_spec;
use super::{
    close_section, for_team_spec, is_team_line, lemma_parsed_globs_are_team_lines, owned_globs_of,
    parse_for_team_spec, team_globs,
};
use super::{entry_row, parse_lines, parse_step, EntryView, TeamOwnershipView};

verus! {

/// Joining two non-empty lists of pieces is joining each, with a separator
/// between.
pub proof fn lemma_join_append(a: Seq<Seq<char>>, b: Seq<Seq<char>>, sep: Seq<char>)
    requires
        a.len() > 0,
        b.len() > 0,
    ensures
        join_spec(a + b, sep) == join_spec(a, sep) + sep + join_spec(b, sep),
    decreases b.len(),
{
    if b.len() == 1 {
        assert((a + b).drop_last() =~= a);
        assert((a + b).last() == b[0]);
    } else {
        assert((a + b).drop_last() =~= a + b.drop_last());
        assert((a + b).last() == b.last());
        lemma_join_append(a, b.drop_last(), sep);
        assert(join_spec(a + b, sep) =~= join_spec(a, sep) + sep + (join_spec(b.drop_last(), sep) + sep
            + b.last()));
    }
}

/// Text without a newline only extends the line being read.
proof fn lemma_lines_state_append(s: Seq<char>, t: Seq<char>)
    requires
        !t.contains('\n'),
    ensures
        lines_state(s + t) == (lines_state(s).0, lines_state(s).1 + t),
    decreases t.len(),
{
    if t.len() == 0 {
        assert(s + t =~= s);
        assert(lines_state(s).1 + t =~= lines_state(s).1);
    } else {
        let u = t.drop_last();
        assert(!u.contains('\n')) by {
            if u.contains('\n') {
                let i = choose|i: int| 0 <= i < u.len() && u[i] == '\n';
                assert(t[i] == '\n');
            }
        }
        lemma_lines_state_append(s, u);
        assert((s + t).drop_last() =~= s + u);
        assert((s + t).last() == t.last());
        assert(t.last() != '\n') by {
            if t.last() == '\n' {
                assert(t[t.len() - 1] == '\n');
            }
        }
        assert(lines_state(s).1 + t =~= (lines_state(s).1 + u).push(t.last()));
    }
}

/// A line without a newline, and not ending with a carriage return.
pub open spec fn plain_line(y: Seq<char>) -> bool {
    !y.contains('\n') && !(y.len() > 0 && y.last() == '\r')
}

/// Reading the lines of plain lines joined with newlines gives every line but
/// the last as read, and the last one still being read.
proof fn lemma_lines_state_of_join(xs: Seq<Seq<char>>)
    requires
        xs.len() > 0,
        forall|i: int| 0 <= i < xs.len() ==> plain_line(#[trigger] xs[i]),
    ensures
        lines_state(join_spec(xs, seq!['\n'])) == (xs.drop_last(), xs.last()),
    decreases xs.len(),
{
    if xs.len() == 1 {
        assert(plain_line(xs[0]));
        lemma_lines_state_append(Seq::empty(), xs[0]);
        assert(Seq::<char>::empty() + xs[0] =~= xs[0]);
        assert(lines_state(Seq::<char>::empty()) == (Seq::<Seq<char>>::empty(), Seq::<char>::empty()));
        assert(xs.drop_last() =~= Seq::<Seq<char>>::empty());
        assert(Seq::<char>::empty() + xs.last() =~= xs.last());
    } else {
        let init = xs.drop_last();
        assert forall|i: int| 0 <= i < init.len() implies plain_line(#[trigger] init[i]) by {
            assert(init[i] == xs[i]);
        }
        lemma_lines_state_of_join(init);
        let j0 = join_spec(init, seq!['\n']);
        let with_nl = j0 + seq!['\n'];
        assert(with_nl.drop_last() =~= j0);
        assert(with_nl.last() == '\n');
        assert(plain_line(init.last()) && plain_line(xs.last())) by {
            assert(init.last() == xs[xs.len() - 2]);
            assert(xs.last() == xs[xs.len() - 1]);
        }
        assert(strip_cr(init.last()) == init.last());
        assert(lines_state(with_nl) == (init.drop_last().push(init.last()), Seq::<char>::empty()));
        assert(init.drop_last().push(init.last()) =~= init);
        lemma_lines_state_append(with_nl, xs.last());
        assert(join_spec(xs, seq!['\n']) == with_nl + xs.last());
        assert(Seq::<char>::empty() + xs.last() =~= xs.last());
    }
}

/// `replace` leaves text in which the pattern does not occur unchanged.
proof fn lemma_replace_absent(s: Seq<char>, p: Seq<char>, r: Seq<char>)
    requires
        p.len() > 0,
        forall|i: int| 0 <= i < s.len() ==> !is_prefix(p, #[trigger] s.skip(i)),
    ensures
        replace_spec(s, p, r) == s,
    decreases s.len(),
{
    if s.len() > 0 {
        assert(s.skip(0) =~= s);
        let t = s.drop_first();
        assert forall|i: int| 0 <= i < t.len() implies !is_prefix(p, #[trigger] t.skip(i)) by {
            assert(t.skip(i) =~= s.skip(i + 1));
        }
        lemma_replace_absent(t, p, r);
        assert(seq![s[0]] + t =~= s);
    }
}

/// After a newline of lines joined with newlines comes the join of the
/// lines from one of them on.
proof fn lemma_newline_in_join(xs: Seq<Seq<char>>, j: int)
    requires
        xs.len() > 0,
        forall|i: int| 0 <= i < xs.len() ==> !(#[trigger] xs[i]).contains('\n'),
        0 <= j < join_spec(xs, seq!['\n']).len(),
        join_spec(xs, seq!['\n'])[j] == '\n',
    ensures
        exists|k: int|
            1 <= k < xs.len() && join_spec(xs, seq!['\n']).skip(j + 1) == join_spec(
                #[trigger] xs.skip(k),
                seq!['\n'],
            ),
    decreases xs.len(),
{
    let nl = seq!['\n'];
    if xs.len() == 1 {
        assert(join_spec(xs, nl) == xs[0]);
        assert(xs[0].contains('\n'));
    } else {
        let init = xs.drop_last();
        let last = xs.last();
        let j0 = join_spec(init, nl);
        assert(join_spec(xs, nl) == j0 + nl + last);
        assert(!last.contains('\n')) by {
            assert(last == xs[xs.len() - 1]);
        }
        if j < j0.len() {
            assert(j0[j] == '\n');
            assert forall|i: int| 0 <= i < init.len() implies !(#[trigger] init[i]).contains('\n') by {
                assert(init[i] == xs[i]);
            }
            lemma_newline_in_join(init, j);
            let k = choose|k: int|
                1 <= k < init.len() && j0.skip(j + 1) == join_spec(#[trigger] init.skip(k), nl);
            lemma_join_append(init.skip(k), seq![last], nl);
            assert(init.skip(k) + seq![last] =~= xs.skip(k));
            assert(join_spec(seq![last], nl) == last);
            assert(join_spec(xs, nl).skip(j + 1) =~= j0.skip(j + 1) + nl + last);
        } else if j == j0.len() {
            let k = xs.len() - 1;
            assert(xs.skip(k) =~= seq![last]);
            assert(join_spec(xs.skip(k), nl) == last);
            assert(join_spec(xs, nl).skip(j + 1) =~= last);
        } else {
            assert(last[j - j0.len() - 1] == '\n');
            assert(last.contains('\n'));
        }
    }
}

/// The four characters that open the disclaimer's second line.
pub open spec fn second_line_start() -> Seq<char> {
    seq!['#', ' ', 'T', 'h']
}

/// A line that a match of the disclaimer's second line cannot start.
pub open spec fn not_second_line(y: Seq<char>) -> bool {
    y.len() >= 4 ==> y.take(4) != second_line_start()
}

/// A text `d` whose first newline, at `l`, is followed by the start of the
/// disclaimer's second line occurs nowhere in a newline followed by plain
/// lines joined with newlines, none of which starts like that second line.
proof fn lemma_no_occurrence(d: Seq<char>, l: int, xs: Seq<Seq<char>>)
    requires
        xs.len() > 0,
        forall|i: int| 0 <= i < xs.len() ==> !(#[trigger] xs[i]).contains('\n'),
        forall|i: int| 0 <= i < xs.len() ==> not_second_line(#[trigger] xs[i]),
        1 <= l,
        l + 5 <= d.len(),
        d[l] == '\n',
        d.subrange(l + 1, l + 5) == second_line_start(),
    ensures
        forall|i: int|
            0 <= i < (seq!['\n'] + join_spec(xs, seq!['\n'])).len() ==> !is_prefix(
                d,
                #[trigger] (seq!['\n'] + join_spec(xs, seq!['\n'])).skip(i),
            ),
{
    let nl = seq!['\n'];
    let jj = join_spec(xs, nl);
    let rest = nl + jj;
    assert forall|i: int| 0 <= i < rest.len() implies !is_prefix(d, #[trigger] rest.skip(i)) by {
        if is_prefix(d, rest.skip(i)) {
            assert(rest.skip(i).take(d.len() as int) == d);
            assert(rest[i + l] == d[l]);
            let j = i + l - 1;
            assert(jj[j] == rest[i + l]);
            lemma_newline_in_join(xs, j);
            let k = choose|k: int| 1 <= k < xs.len() && jj.skip(j + 1) == join_spec(#[trigger] xs.skip(k), nl);
            let z = join_spec(xs.skip(k), nl);
            assert forall|m: int| 0 <= m < 4 implies z[m] == second_line_start()[m] by {
                assert(z[m] == jj[j + 1 + m]);
                assert(jj[j + 1 + m] == rest[i + l + 1 + m]);
                assert(rest[i + l + 1 + m] == d[l + 1 + m]);
                assert(d.subrange(l + 1, l + 5)[m] == d[l + 1 + m]);
            }
            let y = xs[k];
            assert(not_second_line(y) && !y.contains('\n'));
            if k + 1 < xs.len() {
                lemma_join_append(seq![y], xs.skip(k + 1), nl);
                assert(seq![y] + xs.skip(k + 1) =~= xs.skip(k));
                assert(join_spec(seq![y], nl) == y);
                assert(z == y + nl + join_spec(xs.skip(k + 1), nl));
                if y.len() >= 4 {
                    assert(y.take(4) =~= second_line_start()) by {
                        assert forall|m: int| 0 <= m < 4 implies y.take(4)[m] == second_line_start()[m] by {
                            assert(z[m] == y[m]);
                        }
                    }
                } else {
                    assert(z[y.len() as int] == '\n');
                    assert(second_line_start()[y.len() as int] != '\n');
                }
            } else {
                assert(xs.skip(k) =~= seq![y]);
                assert(z == y);
                assert(z.len() >= 4) by {
                    assert(i + d.len() <= rest.len());
                    assert(z.len() == jj.len() - (j + 1));
                }
                assert(y.take(4) =~= second_line_start()) by {
                    assert forall|m: int| 0 <= m < 4 implies y.take(4)[m] == second_line_start()[m] by {
                        assert(z[m] == y[m]);
                    }
                }
            }
        }
    }
}

/// An entry whose line holds no newline and does not end with a carriage
/// return: neither its path nor its GitHub team holds a newline, and its
/// GitHub team holds no carriage return.
pub open spec fn plain_entry(e: EntryView) -> bool {
    !e.path.contains('\n') && !e.github_team.contains('\n') && !e.github_team.contains('\r')
}

pub open spec fn plain_entries(es: Seq<EntryView>) -> bool {
    forall|i: int| 0 <= i < es.len() ==> plain_entry(#[trigger] es[i])
}

/// A line of a generated file as the reading back needs it.
pub open spec fn readable_line(y: Seq<char>) -> bool {
    &&& plain_line(y)
    &&& not_second_line(y)
}

pub open spec fn readable_lines(xs: Seq<Seq<char>>) -> bool {
    forall|i: int| 0 <= i < xs.len() ==> readable_line(#[trigger] xs[i])
}

proof fn lemma_no_char_concat(a: Seq<char>, b: Seq<char>, c: char)
    requires
        !a.contains(c),
        !b.contains(c),
    ensures
        !(a + b).contains(c),
{
    if (a + b).contains(c) {
        let i = choose|i: int| 0 <= i < (a + b).len() && (a + b)[i] == c;
        if i < a.len() {
            assert(a[i] == c);
        } else {
            assert(b[i - a.len()] == c);
        }
    }
}

proof fn lemma_readable_concat(a: Seq<Seq<char>>, b: Seq<Seq<char>>)
    requires
        readable_lines(a),
        readable_lines(b),
    ensures
        readable_lines(a + b),
{
    assert forall|i: int| 0 <= i < (a + b).len() implies readable_line(#[trigger] (a + b)[i]) by {
        if i < a.len() {
            assert((a + b)[i] == a[i]);
        } else {
            assert((a + b)[i] == b[i - a.len()]);
        }
    }
}

/// The line of a plain entry is readable, not empty, and holds a space when it
/// is not commented out.
proof fn lemma_row_facts(e: EntryView)
    requires
        plain_entry(e),
    ensures
        readable_line(entry_row(e)),
        entry_row(e).len() > 0,
        !is_prefix("#"@, entry_row(e)) ==> split_once_spec(entry_row(e), ' ') is Some,
{
    reveal_strlit("/");
    reveal_strlit(" ");
    reveal_strlit("# ");
    reveal_strlit("#");
    let line = "/"@ + e.path + " "@ + e.github_team;
    assert(!"/"@.contains('\n') && !" "@.contains('\n') && !"# "@.contains('\n')) by {
        assert("/"@ =~= seq!['/']);
        assert(" "@ =~= seq![' ']);
        assert("# "@ =~= seq!['#', ' ']);
    }
    lemma_no_char_concat("/"@, e.path, '\n');
    lemma_no_char_concat("/"@ + e.path, " "@, '\n');
    lemma_no_char_concat("/"@ + e.path + " "@, e.github_team, '\n');
    lemma_no_char_concat("# "@, line, '\n');
    assert(line[0] == '/');
    assert(line[e.path.len() as int + 1] == ' ');
    if e.github_team.len() > 0 {
        assert(line.last() == e.github_team.last());
        assert(e.github_team[e.github_team.len() - 1] == e.github_team.last());
    } else {
        assert(line.last() == ' ');
    }
    let row = entry_row(e);
    if e.disabled {
        assert(row == "# "@ + line);
        assert(row.last() == line.last());
        assert(row[2] == '/');
        assert(row.take(1) =~= "#"@);
        if row.len() >= 4 {
            assert(row.take(4)[2] != second_line_start()[2]);
        }
    } else {
        if row.len() >= 4 {
            assert(row.take(4)[0] != second_line_start()[0]);
        }
        assert(!is_prefix("#"@, row) ==> split_once_spec(row, ' ') is Some) by {
            lemma_first_index_of_bound(row, ' ');
            if first_index_of(row, ' ') >= row.len() {
                lemma_first_space(row, e.path.len() as int + 1);
            }
        }
    }
}

proof fn lemma_first_space(s: Seq<char>, k: int)
    requires
        0 <= k < s.len(),
        s[k] == ' ',
    ensures
        first_index_of(s, ' ') <= k,
    decreases s.len(),
{
    if s[0] != ' ' {
        assert(s.drop_first()[k - 1] == s[k]);
        lemma_first_space(s.drop_first(), k - 1);
    }
}

/// The lines of a section of plain entries under a readable heading are
/// readable.
proof fn lemma_section_readable(name: Seq<char>, es: Seq<EntryView>)
    requires
        plain_entries(es),
        readable_line("# "@ + name),
    ensures
        readable_lines(section_spec(name, es)),
{
    let rows = es.map_values(|e: EntryView| entry_row(e));
    lemma_sorted_set(rows);
    let ss = sorted_set(rows);
    assert(readable_lines(ss)) by {
        assert forall|i: int| 0 <= i < ss.len() implies readable_line(#[trigger] ss[i]) by {
            assert(ss.to_set().contains(ss[i]));
            assert(rows.to_set().contains(ss[i]));
            let k = choose|k: int| 0 <= k < rows.len() && rows[k] == ss[i];
            lemma_row_facts(es[k]);
        }
    }
    reveal_strlit("");
    assert(readable_lines(seq!["# "@ + name]));
    assert(readable_lines(seq![""@])) by {
        assert(""@ =~= Seq::<char>::empty());
    }
    lemma_readable_concat(seq!["# "@ + name], ss);
    lemma_readable_concat(seq!["# "@ + name] + ss, seq![""@]);
}

/// Reading the lines `b` for `team` on from the state `st`.
pub open spec fn parse_from(
    team: Seq<char>,
    st: (Seq<TeamOwnershipView>, Option<TeamOwnershipView>),
    b: Seq<Seq<char>>,
) -> Option<(Seq<TeamOwnershipView>, Option<TeamOwnershipView>)>
    decreases b.len(),
{
    if b.len() == 0 {
        Some(st)
    } else {
        match parse_from(team, st, b.drop_last()) {
            Some(s2) => parse_step(team, s2, b.last()),
            None => None,
        }
    }
}

proof fn lemma_parse_concat(team: Seq<char>, a: Seq<Seq<char>>, b: Seq<Seq<char>>)
    ensures
        parse_lines(team, a + b) == match parse_lines(team, a) {
            Some(st) => parse_from(team, st, b),
            None => None,
        },
    decreases b.len(),
{
    if b.len() == 0 {
        assert(a + b =~= a);
    } else {
        lemma_parse_concat(team, a, b.drop_last());
        assert((a + b).drop_last() =~= a + b.drop_last());
        assert((a + b).last() == b.last());
    }
}

/// A line that reading for a team accepts wherever a section is open: not
/// empty, and holding a space unless it is a comment.
pub open spec fn parsable_row(y: Seq<char>) -> bool {
    y.len() > 0 && (!is_prefix("#"@, y) ==> split_once_spec(y, ' ') is Some)
}

/// From any state, a heading followed by parsable rows is read, and leaves a
/// section open.
proof fn lemma_rows_parse(
    team: Seq<char>,
    st: (Seq<TeamOwnershipView>, Option<TeamOwnershipView>),
    h: Seq<char>,
    rows: Seq<Seq<char>>,
)
    requires
        is_prefix("#"@, h),
        forall|i: int| 0 <= i < rows.len() ==> parsable_row(#[trigger] rows[i]),
    ensures
        parse_from(team, st, seq![h] + rows) matches Some(s2) && s2.1 is Some,
    decreases rows.len(),
{
    if rows.len() == 0 {
        assert(seq![h] + rows =~= seq![h]);
        assert(seq![h].drop_last() =~= Seq::<Seq<char>>::empty());
        assert(parse_from(team, st, Seq::<Seq<char>>::empty()) == Some(st));
        assert(seq![h].last() == h);
    } else {
        let init = rows.drop_last();
        assert forall|i: int| 0 <= i < init.len() implies parsable_row(#[trigger] init[i]) by {
            assert(init[i] == rows[i]);
        }
        lemma_rows_parse(team, st, h, init);
        assert((seq![h] + rows).drop_last() =~= seq![h] + init);
        assert((seq![h] + rows).last() == rows.last());
        assert(parsable_row(rows[rows.len() - 1]));
        assert(rows.last() == rows[rows.len() - 1]);
        let s2 = parse_from(team, st, seq![h] + init).unwrap();
        let x = rows.last();
        assert(parse_from(team, st, seq![h] + rows) == parse_step(team, s2, x));
        assert(s2.1 is Some);
    }
}

/// The rows of a section, as the generated file holds them.
pub open spec fn section_rows(es: Seq<EntryView>) -> Seq<Seq<char>> {
    sorted_set(es.map_values(|e: EntryView| entry_row(e)))
}

/// The sorted rows of plain entries are parsable.
proof fn lemma_section_rows_parsable(es: Seq<EntryView>)
    requires
        plain_entries(es),
    ensures
        forall|i: int| 0 <= i < section_rows(es).len() ==> parsable_row(#[trigger] section_rows(es)[i]),
{
    let rows = es.map_values(|e: EntryView| entry_row(e));
    lemma_sorted_set(rows);
    let ss = sorted_set(rows);
    assert forall|i: int| 0 <= i < ss.len() implies parsable_row(#[trigger] ss[i]) by {
        assert(ss.to_set().contains(ss[i]));
        assert(rows.to_set().contains(ss[i]));
        let k = choose|k: int| 0 <= k < rows.len() && rows[k] == ss[i];
        lemma_row_facts(es[k]);
    }
}

/// From any state, a section of plain entries is read, whole or without its
/// final empty line.
proof fn lemma_section_parses(
    team: Seq<char>,
    st: (Seq<TeamOwnershipView>, Option<TeamOwnershipView>),
    name: Seq<char>,
    es: Seq<EntryView>,
)
    requires
        plain_entries(es),
    ensures
        parse_from(team, st, section_spec(name, es)) is Some,
        parse_from(team, st, section_spec(name, es).drop_last()) is Some,
{
    reveal_strlit("# ");
    reveal_strlit("#");
    let h = "# "@ + name;
    assert(h.take(1) =~= "#"@);
    let ss = section_rows(es);
    lemma_section_rows_parsable(es);
    lemma_rows_parse(team, st, h, ss);
    let sec = section_spec(name, es);
    assert(sec.drop_last() =~= seq![h] + ss);
    reveal_strlit("");
    assert(sec.last() == ""@);
    assert(""@.len() == 0);
    assert(!is_prefix("#"@, ""@));
}

proof fn lemma_heading_readable(name: Seq<char>)
    requires
        name.len() >= 2,
        name[1] != 'h',
        !name.contains('\n'),
        name.last() != '\r',
    ensures
        readable_line("# "@ + name),
{
    reveal_strlit("# ");
    assert("# "@ =~= seq!['#', ' ']);
    lemma_no_char_concat("# "@, name, '\n');
    let h = "# "@ + name;
    assert(h.last() == name.last());
    assert(h[3] == name[1]);
    assert(h.take(4)[3] != second_line_start()[3]);
}

proof fn lemma_headings_readable()
    ensures
        readable_line("# "@ + "Annotations at the top of file"@),
        readable_line("# "@ + "Team-specific owned globs"@),
        readable_line("# "@ + "Owner metadata key in package.yml"@),
        readable_line("# "@ + "Owner metadata key in package.json"@),
        readable_line("# "@ + "Team YML ownership"@),
        readable_line("# "@ + "Team owned gems"@),
        readable_line("# "@ + "Owner in .codeowner"@),
{
    reveal_strlit("Annotations at the top of file");
    reveal_strlit("Team-specific owned globs");
    reveal_strlit("Owner metadata key in package.yml");
    reveal_strlit("Owner metadata key in package.json");
    reveal_strlit("Team YML ownership");
    reveal_strlit("Team owned gems");
    reveal_strlit("Owner in .codeowner");
    lemma_heading_readable("Annotations at the top of file"@);
    lemma_heading_readable("Team-specific owned globs"@);
    lemma_heading_readable("Owner metadata key in package.yml"@);
    lemma_heading_readable("Owner metadata key in package.json"@);
    lemma_heading_readable("Team YML ownership"@);
    lemma_heading_readable("Team owned gems"@);
    lemma_heading_readable("Owner in .codeowner"@);
}

/// No path or GitHub team of an entry of the generated file holds a newline,
/// and no GitHub team holds a carriage return.
pub open spec fn plain_project(p: ProjectView) -> bool {
    &&& plain_entries(team_file_entries_spec(p))
    &&& plain_entries(team_glob_entries_spec(p))
    &&& plain_entries(package_entries_spec(p, PackageType::Ruby))
    &&& plain_entries(package_entries_spec(p, PackageType::Javascript))
    &&& plain_entries(team_yml_entries_spec(p))
    &&& plain_entries(team_gem_entries_spec(p))
    &&& plain_entries(directory_entries_spec(p))
}

proof fn lemma_sections_readable(p: ProjectView)
    requires
        plain_project(p),
    ensures
        readable_lines(sections_spec(p)),
        sections_spec(p).len() > 1,
        sections_spec(p)[0] == "# "@ + "Annotations at the top of file"@,
        sections_spec(p).last() == ""@,
{
    lemma_headings_readable();
    let s1 = section_spec("Annotations at the top of file"@, team_file_entries_spec(p));
    let s2 = section_spec("Team-specific owned globs"@, team_glob_entries_spec(p));
    let s3 = section_spec("Owner metadata key in package.yml"@, package_entries_spec(p, PackageType::Ruby));
    let s4 = section_spec(
        "Owner metadata key in package.json"@,
        package_entries_spec(p, PackageType::Javascript),
    );
    let s5 = section_spec("Team YML ownership"@, team_yml_entries_spec(p));
    let s6 = section_spec("Team owned gems"@, team_gem_entries_spec(p));
    let s7 = section_spec("Owner in .codeowner"@, directory_entries_spec(p));
    lemma_section_readable("Annotations at the top of file"@, team_file_entries_spec(p));
    lemma_section_readable("Team-specific owned globs"@, team_glob_entries_spec(p));
    lemma_section_readable("Owner metadata key in package.yml"@, package_entries_spec(p, PackageType::Ruby));
    lemma_section_readable(
        "Owner metadata key in package.json"@,
        package_entries_spec(p, PackageType::Javascript),
    );
    lemma_section_readable("Team YML ownership"@, team_yml_entries_spec(p));
    lemma_section_readable("Team owned gems"@, team_gem_entries_spec(p));
    lemma_section_readable("Owner in .codeowner"@, directory_entries_spec(p));
    lemma_readable_concat(s1, s2);
    lemma_readable_concat(s1 + s2, s3);
    lemma_readable_concat(s1 + s2 + s3, s4);
    lemma_readable_concat(s1 + s2 + s3 + s4, s5);
    lemma_readable_concat(s1 + s2 + s3 + s4 + s5, s6);
    lemma_readable_concat(s1 + s2 + s3 + s4 + s5 + s6, s7);
    let all = sections_spec(p);
    assert(all == s1 + s2 + s3 + s4 + s5 + s6 + s7);
    assert(all[0] == s1[0]);
    assert(all.last() == s7.last());
}

proof fn lemma_sections_parse(team: Seq<char>, p: ProjectView)
    requires
        plain_project(p),
    ensures
        parse_lines(team, sections_spec(p).drop_last()) is Some,
{
    let s1 = section_spec("Annotations at the top of file"@, team_file_entries_spec(p));
    let s2 = section_spec("Team-specific owned globs"@, team_glob_entries_spec(p));
    let s3 = section_spec("Owner metadata key in package.yml"@, package_entries_spec(p, PackageType::Ruby));
    let s4 = section_spec(
        "Owner metadata key in package.json"@,
        package_entries_spec(p, PackageType::Javascript),
    );
    let s5 = section_spec("Team YML ownership"@, team_yml_entries_spec(p));
    let s6 = section_spec("Team owned gems"@, team_gem_entries_spec(p));
    let s7 = section_spec("Owner in .codeowner"@, directory_entries_spec(p));
    let empty = Seq::<Seq<char>>::empty();
    assert(parse_lines(team, empty) is Some);
    lemma_parse_concat(team, empty, s1);
    assert(empty + s1 =~= s1);
    lemma_section_parses(team, parse_lines(team, empty).unwrap(), "Annotations at the top of file"@, team_file_entries_spec(p));
    lemma_parse_concat(team, s1, s2);
    lemma_section_parses(team, parse_lines(team, s1).unwrap(), "Team-specific owned globs"@, team_glob_entries_spec(p));
    let a2 = s1 + s2;
    lemma_parse_concat(team, a2, s3);
    lemma_section_parses(
        team,
        parse_lines(team, a2).unwrap(),
        "Owner metadata key in package.yml"@,
        package_entries_spec(p, PackageType::Ruby),
    );
    let a3 = a2 + s3;
    lemma_parse_concat(team, a3, s4);
    lemma_section_parses(
        team,
        parse_lines(team, a3).unwrap(),
        "Owner metadata key in package.json"@,
        package_entries_spec(p, PackageType::Javascript),
    );
    let a4 = a3 + s4;
    lemma_parse_concat(team, a4, s5);
    lemma_section_parses(team, parse_lines(team, a4).unwrap(), "Team YML ownership"@, team_yml_entries_spec(p));
    let a5 = a4 + s5;
    lemma_parse_concat(team, a5, s6);
    lemma_section_parses(team, parse_lines(team, a5).unwrap(), "Team owned gems"@, team_gem_entries_spec(p));
    let a6 = a5 + s6;
    lemma_parse_concat(team, a6, s7.drop_last());
    lemma_section_parses(team, parse_lines(team, a6).unwrap(), "Owner in .codeowner"@, directory_entries_spec(p));
    assert(sections_spec(p) == a6 + s7);
    assert(s7.len() > 0);
    assert(sections_spec(p).drop_last() =~= a6 + s7.drop_last());
}

/// The text of the disclaimer: its first newline, after the first line, is
/// followed by the start of its second line.
proof fn lemma_disclaimer_text()
    ensures
        disclaimer_spec()[0].len() >= 1,
        disclaimer_spec()[0].len() + 5 <= join_spec(disclaimer_spec(), seq!['\n']).len(),
        join_spec(disclaimer_spec(), seq!['\n'])[disclaimer_spec()[0].len() as int] == '\n',
        join_spec(disclaimer_spec(), seq!['\n']).subrange(
            disclaimer_spec()[0].len() as int + 1,
            disclaimer_spec()[0].len() as int + 5,
        ) == second_line_start(),
{
    let dis = disclaimer_spec();
    let nl = seq!['\n'];
    reveal_strlit("# STOP! - DO NOT EDIT THIS FILE MANUALLY");
    reveal_strlit("# This file was automatically generated by \"bin/codeownership validate\".");
    let d0 = dis[0];
    let d1 = dis[1];
    let two = seq![d0, d1];
    assert(two.drop_last() =~= seq![d0]);
    assert(join_spec(seq![d0], nl) == d0);
    assert(two.last() == d1);
    assert(join_spec(two, nl) == d0 + nl + d1);
    lemma_join_append(two, dis.skip(2), nl);
    assert(two + dis.skip(2) =~= dis);
    let dd = join_spec(dis, nl);
    assert(dd == d0 + nl + d1 + nl + join_spec(dis.skip(2), nl));
    let l = d0.len() as int;
    assert(dd[l] == '\n');
    assert(d1.len() >= 4);
    assert forall|m: int| 0 <= m < 4 implies dd.subrange(l + 1, l + 5)[m] == second_line_start()[m] by {
        assert(dd[l + 1 + m] == d1[m]);
    }
    assert(dd.subrange(l + 1, l + 5) =~= second_line_start());
}

/// The lines that reading a file made of the disclaimer and then the lines
/// `ss` gives, once the disclaimer is taken out: all of `ss` but its final
/// empty line.
proof fn lemma_lines_after_disclaimer(ss: Seq<Seq<char>>)
    requires
        readable_lines(ss),
        ss.len() > 1,
        ss[0].len() > 0,
        ss[0][0] == '#',
        ss.last().len() == 0,
    ensures
        lines_spec(
            trim_start_spec(
                replace_spec(
                    join_spec(disclaimer_spec() + ss, "\n"@),
                    join_spec(disclaimer_spec(), "\n"@),
                    ""@,
                ),
            ),
        ) == ss.drop_last(),
{
    let nl = seq!['\n'];
    reveal_strlit("\n");
    reveal_strlit("");
    assert("\n"@ =~= nl);
    let dis = disclaimer_spec();
    assert(dis.len() > 0);
    let d = join_spec(dis, nl);
    let jj = join_spec(ss, nl);
    let g = join_spec(dis + ss, nl);
    lemma_join_append(dis, ss, nl);
    assert(g == d + nl + jj);
    lemma_disclaimer_text();
    let l = dis[0].len() as int;
    assert forall|i: int| 0 <= i < ss.len() implies !(#[trigger] ss[i]).contains('\n') by {
        assert(readable_line(ss[i]));
    }
    assert forall|i: int| 0 <= i < ss.len() implies not_second_line(#[trigger] ss[i]) by {
        assert(readable_line(ss[i]));
    }
    lemma_no_occurrence(d, l, ss);
    lemma_replace_absent(nl + jj, d, ""@);
    assert(g.take(d.len() as int) =~= d);
    assert(g.skip(d.len() as int) =~= nl + jj);
    assert(replace_spec(g, d, ""@) == ""@ + replace_spec(g.skip(d.len() as int), d, ""@));
    assert(""@ + (nl + jj) =~= nl + jj);
    lemma_join_append(seq![ss[0]], ss.skip(1), nl);
    assert(seq![ss[0]] + ss.skip(1) =~= ss);
    assert(join_spec(seq![ss[0]], nl) == ss[0]);
    assert(jj[0] == '#');
    assert((nl + jj).drop_first() =~= jj);
    assert(trim_start_spec(nl + jj) == trim_start_spec(jj));
    assert(trim_start_spec(jj) == jj);
    assert forall|i: int| 0 <= i < ss.len() implies plain_line(#[trigger] ss[i]) by {
        assert(readable_line(ss[i]));
    }
    lemma_lines_state_of_join(ss);
}

/// Reading back the generated CODEOWNERS file: when the project's
/// CODEOWNERS file is the generated one, `for-team` finds a team exactly the
/// globs of the generated lines that end with its GitHub team (and are not
/// comments), in the order of the file.
pub proof fn lemma_generated_file_reads_back(p: ProjectView, name: Seq<char>)
    requires
        p.codeowners_file == Some(generated_file_spec(p)),
        teams_by_name_spec(p.teams).contains_key(name),
        plain_project(p),
    ensures
        for_team_spec(p, name) matches Ok(v) && owned_globs_of(v) == team_globs(
            teams_by_name_spec(p.teams)[name].github_team,
            sections_spec(p),
        ),
{
    let team = teams_by_name_spec(p.teams)[name].github_team;
    let ss = sections_spec(p);
    let g = generated_file_spec(p);
    lemma_sections_readable(p);
    reveal_strlit("# ");
    reveal_strlit("Annotations at the top of file");
    reveal_strlit("");
    assert(ss[0][0] == '#');
    lemma_lines_after_disclaimer(ss);
    lemma_sections_parse(team, p);
    assert(parse_for_team_spec(team, g) is Some);
    lemma_parsed_globs_are_team_lines(team, g);
    assert(ss.last() == ss[ss.len() - 1]);
    assert(!is_team_line(team, ss.last()));
    assert(team_globs(team, ss) == team_globs(team, ss.drop_last()));
}

proof fn lemma_first_index_exact(s: Seq<char>, c: char, k: int)
    requires
        0 <= k < s.len(),
        s[k] == c,
        forall|j: int| 0 <= j < k ==> s[j] != c,
    ensures
        first_index_of(s, c) == k,
    decreases k,
{
    if k > 0 {
        assert forall|j: int| 0 <= j < k - 1 implies s.drop_first()[j] != c by {
            assert(s.drop_first()[j] == s[j + 1]);
        }
        lemma_first_index_exact(s.drop_first(), c, k - 1);
    }
}

/// A generated line is a line of GitHub team `gh` exactly when it is the
/// line of an entry of that team that is not commented out, and its glob is
/// then the entry's path under the root; provided no path or GitHub team
/// holds a space and `gh` is no proper suffix of the entry's GitHub team.
pub proof fn lemma_team_line_of_row(e: EntryView, gh: Seq<char>)
    requires
        !e.path.contains(' '),
        !e.github_team.contains(' '),
        !gh.contains(' '),
        is_suffix(gh, e.github_team) ==> gh == e.github_team,
    ensures
        is_team_line(gh, entry_row(e)) <==> (!e.disabled && e.github_team == gh),
        is_team_line(gh, entry_row(e)) ==> split_once_spec(entry_row(e), ' ') == Some(
            ("/"@ + e.path, e.github_team),
        ),
{
    reveal_strlit("/");
    reveal_strlit(" ");
    reveal_strlit("# ");
    reveal_strlit("#");
    let egh = e.github_team;
    let line = "/"@ + e.path + " "@ + egh;
    let k = e.path.len() as int + 1;
    assert(line[0] == '/');
    assert(line[k] == ' ');
    assert(line.skip(k + 1) =~= egh);
    assert(line.take(k) =~= "/"@ + e.path);
    let row = entry_row(e);
    if e.disabled {
        assert(row.take(1) =~= "#"@);
    } else {
        assert(row == line);
        assert(!is_prefix("#"@, row)) by {
            assert(row.take(1)[0] == '/');
        }
        if is_suffix(gh, row) {
            if gh.len() <= egh.len() {
                assert(egh.skip(egh.len() - gh.len()) =~= row.skip(row.len() - gh.len()));
                assert(is_suffix(gh, egh));
            } else {
                let at = gh.len() - egh.len() - 1;
                assert(row.skip(row.len() - gh.len())[at] == row[k]);
                assert(gh[at] == ' ');
                assert(gh.contains(' '));
            }
        }
        if egh == gh {
            assert(row.skip(row.len() - gh.len()) =~= gh);
            assert forall|j: int| 0 <= j < k implies row[j] != ' ' by {
                if j > 0 {
                    assert(row[j] == e.path[j - 1]);
                    if e.path[j - 1] == ' ' {
                        assert(e.path.contains(' '));
                    }
                }
            }
            lemma_first_index_exact(row, ' ', k);
        }
    }
}

proof fn lemma_team_globs_concat(team: Seq<char>, a: Seq<Seq<char>>, b: Seq<Seq<char>>)
    ensures
        team_globs(team, a + b) == team_globs(team, a) + team_globs(team, b),
    decreases b.len(),
{
    if b.len() == 0 {
        assert(a + b =~= a);
        assert(team_globs(team, a) + team_globs(team, b) =~= team_globs(team, a));
    } else {
        lemma_team_globs_concat(team, a, b.drop_last());
        assert((a + b).drop_last() =~= a + b.drop_last());
        assert((a + b).last() == b.last());
        let x = b.last();
        if is_team_line(team, x) {
            match split_once_spec(x, ' ') {
                Some((g, _)) => {
                    assert(team_globs(team, a) + team_globs(team, b) =~= (team_globs(team, a)
                        + team_globs(team, b.drop_last())).push(g));
                },
                None => {},
            }
        }
    }
}

/// When `f` gives each line its glob exactly when the line is one of
/// `team`'s, reading the lines for `team` gives what `f` gives.
proof fn lemma_team_globs_filter_map(
    team: Seq<char>,
    rows: Seq<Seq<char>>,
    f: spec_fn(Seq<char>) -> Option<Seq<char>>,
)
    requires
        forall|i: int|
            0 <= i < rows.len() ==> (is_team_line(team, #[trigger] rows[i]) ==> (split_once_spec(
                rows[i],
                ' ',
            ) matches Some(pr) && f(rows[i]) == Some(pr.0))),
        forall|i: int| 0 <= i < rows.len() ==> (!is_team_line(team, #[trigger] rows[i]) ==> f(rows[i]) is None),
    ensures
        team_globs(team, rows) == rows.filter_map(f),
    decreases rows.len(),
{
    if rows.len() > 0 {
        let init = rows.drop_last();
        assert forall|i: int| 0 <= i < init.len() implies #[trigger] init[i] == rows[i] by {}
        lemma_team_globs_filter_map(team, init, f);
        let x = rows.last();
        assert(x == rows[rows.len() - 1]);
        if is_team_line(team, x) {
            let g = split_once_spec(x, ' ').unwrap().0;
            assert(init.filter_map(f) + seq![g] =~= init.filter_map(f).push(g));
        }
    }
}

/// The path under the root of an entry of `es` that is not commented out,
/// belongs to GitHub team `gh`, and has the line `y`, if there is one.
pub open spec fn row_team_glob(es: Seq<EntryView>, gh: Seq<char>, y: Seq<char>) -> Option<Seq<char>> {
    if exists|i: int|
        0 <= i < es.len() && entry_row(#[trigger] es[i]) == y && !es[i].disabled && es[i].github_team
            == gh {
        let i = choose|i: int|
            0 <= i < es.len() && entry_row(#[trigger] es[i]) == y && !es[i].disabled
                && es[i].github_team == gh;
        Some("/"@ + es[i].path)
    } else {
        None
    }
}

/// The globs that the rows of a section of the generated file give GitHub
/// team `gh`: the paths of the enabled entries of the team, in the order of
/// the rows.
pub open spec fn section_team_globs(es: Seq<EntryView>, gh: Seq<char>) -> Seq<Seq<char>> {
    section_rows(es).filter_map(|y: Seq<char>| row_team_glob(es, gh, y))
}

/// The globs that the rows of the generated file give GitHub team `gh`, in
/// the order of the file.
pub open spec fn rows_team_globs(p: ProjectView, gh: Seq<char>) -> Seq<Seq<char>> {
    section_team_globs(team_file_entries_spec(p), gh) + section_team_globs(
        team_glob_entries_spec(p),
        gh,
    ) + section_team_globs(package_entries_spec(p, PackageType::Ruby), gh) + section_team_globs(
        package_entries_spec(p, PackageType::Javascript),
        gh,
    ) + section_team_globs(team_yml_entries_spec(p), gh) + section_team_globs(
        team_gem_entries_spec(p),
        gh,
    ) + section_team_globs(directory_entries_spec(p), gh)
}

/// Entries whose lines can be told apart for GitHub team `gh`: no path or
/// GitHub team holds a space, and `gh` is no proper suffix of an entry's
/// GitHub team.
pub open spec fn separable_entries(es: Seq<EntryView>, gh: Seq<char>) -> bool {
    forall|i: int|
        0 <= i < es.len() ==> !(#[trigger] es[i]).path.contains(' ') && !es[i].github_team.contains(
            ' ',
        ) && (is_suffix(gh, es[i].github_team) ==> gh == es[i].github_team)
}

pub open spec fn separable_project(p: ProjectView, gh: Seq<char>) -> bool {
    &&& separable_entries(team_file_entries_spec(p), gh)
    &&& separable_entries(team_glob_entries_spec(p), gh)
    &&& separable_entries(package_entries_spec(p, PackageType::Ruby), gh)
    &&& separable_entries(package_entries_spec(p, PackageType::Javascript), gh)
    &&& separable_entries(team_yml_entries_spec(p), gh)
    &&& separable_entries(team_gem_entries_spec(p), gh)
    &&& separable_entries(directory_entries_spec(p), gh)
}

proof fn lemma_section_team_globs(name: Seq<char>, es: Seq<EntryView>, gh: Seq<char>)
    requires
        separable_entries(es, gh),
        !gh.contains(' '),
    ensures
        team_globs(gh, section_spec(name, es)) == section_team_globs(es, gh),
{
    reveal_strlit("# ");
    reveal_strlit("#");
    reveal_strlit("");
    let h = "# "@ + name;
    assert(h.take(1) =~= "#"@);
    let src = es.map_values(|e: EntryView| entry_row(e));
    let rows = section_rows(es);
    lemma_sorted_set(src);
    let f = |y: Seq<char>| row_team_glob(es, gh, y);
    assert forall|i: int| 0 <= i < rows.len() implies (is_team_line(gh, #[trigger] rows[i]) ==> (
    split_once_spec(rows[i], ' ') matches Some(pr) && f(rows[i]) == Some(pr.0))) && (!is_team_line(
        gh,
        rows[i],
    ) ==> f(rows[i]) is None) by {
        let y = rows[i];
        assert(rows.to_set().contains(y));
        assert(src.to_set().contains(y));
        let k = choose|k: int| 0 <= k < src.len() && src[k] == y;
        assert(entry_row(es[k]) == y);
        lemma_team_line_of_row(es[k], gh);
        if is_team_line(gh, y) {
            assert(!es[k].disabled && es[k].github_team == gh);
            let j = choose|j: int|
                0 <= j < es.len() && entry_row(#[trigger] es[j]) == y && !es[j].disabled
                    && es[j].github_team == gh;
            lemma_team_line_of_row(es[j], gh);
        } else {
            if exists|j: int|
                0 <= j < es.len() && entry_row(#[trigger] es[j]) == y && !es[j].disabled
                    && es[j].github_team == gh {
                let j = choose|j: int|
                    0 <= j < es.len() && entry_row(#[trigger] es[j]) == y && !es[j].disabled
                        && es[j].github_team == gh;
                lemma_team_line_of_row(es[j], gh);
            }
        }
    }
    lemma_team_globs_filter_map(gh, rows, f);
    let sec = section_spec(name, es);
    assert(sec == seq![h] + rows + seq![""@]);
    lemma_team_globs_concat(gh, seq![h], rows);
    lemma_team_globs_concat(gh, seq![h] + rows, seq![""@]);
    assert(seq![h].drop_last() =~= Seq::<Seq<char>>::empty());
    assert(seq![""@].drop_last() =~= Seq::<Seq<char>>::empty());
    assert(team_globs(gh, Seq::<Seq<char>>::empty()) =~= Seq::<Seq<char>>::empty());
    assert(seq![h].last() == h);
    assert(!is_team_line(gh, h));
    assert(seq![""@].last() == ""@);
    assert(!is_team_line(gh, ""@));
    assert(team_globs(gh, seq![h]) =~= Seq::<Seq<char>>::empty());
    assert(team_globs(gh, seq![""@]) =~= Seq::<Seq<char>>::empty());
    assert(team_globs(gh, rows) + Seq::<Seq<char>>::empty() =~= team_globs(gh, rows));
    assert(Seq::<Seq<char>>::empty() + team_globs(gh, rows) =~= team_globs(gh, rows));
}

/// Reading back the generated CODEOWNERS file, row by row: when the
/// project's CODEOWNERS file is the generated one, `for-team` finds a team,
/// across all its sections and in the order of the file, exactly the paths
/// (under the root) of the generated rows of entries that belong to its
/// GitHub team and are not commented out; provided no path or GitHub team
/// holds a newline or a space, no GitHub team a carriage return, and the
/// team's GitHub team is no proper suffix of another entry's.
pub proof fn lemma_generated_rows_read_back(p: ProjectView, name: Seq<char>)
    requires
        p.codeowners_file == Some(generated_file_spec(p)),
        teams_by_name_spec(p.teams).contains_key(name),
        plain_project(p),
        !teams_by_name_spec(p.teams)[name].github_team.contains(' '),
        separable_project(p, teams_by_name_spec(p.teams)[name].github_team),
    ensures
        for_team_spec(p, name) matches Ok(v) && owned_globs_of(v) == rows_team_globs(
            p,
            teams_by_name_spec(p.teams)[name].github_team,
        ),
{
    let gh = teams_by_name_spec(p.teams)[name].github_team;
    lemma_generated_file_reads_back(p, name);
    let s1 = section_spec("Annotations at the top of file"@, team_file_entries_spec(p));
    let s2 = section_spec("Team-specific owned globs"@, team_glob_entries_spec(p));
    let s3 = section_spec("Owner metadata key in package.yml"@, package_entries_spec(p, PackageType::Ruby));
    let s4 = section_spec(
        "Owner metadata key in package.json"@,
        package_entries_spec(p, PackageType::Javascript),
    );
    let s5 = section_spec("Team YML ownership"@, team_yml_entries_spec(p));
    let s6 = section_spec("Team owned gems"@, team_gem_entries_spec(p));
    let s7 = section_spec("Owner in .codeowner"@, directory_entries_spec(p));
    lemma_section_team_globs("Annotations at the top of file"@, team_file_entries_spec(p), gh);
    lemma_section_team_globs("Team-specific owned globs"@, team_glob_entries_spec(p), gh);
    lemma_section_team_globs(
        "Owner metadata key in package.yml"@,
        package_entries_spec(p, PackageType::Ruby),
        gh,
    );
    lemma_section_team_globs(
        "Owner metadata key in package.json"@,
        package_entries_spec(p, PackageType::Javascript),
        gh,
    );
    lemma_section_team_globs("Team YML ownership"@, team_yml_entries_spec(p), gh);
    lemma_section_team_globs("Team owned gems"@, team_gem_entries_spec(p), gh);
    lemma_section_team_globs("Owner in .codeowner"@, directory_entries_spec(p), gh);
    lemma_team_globs_concat(gh, s1, s2);
    lemma_team_globs_concat(gh, s1 + s2, s3);
    lemma_team_globs_concat(gh, s1 + s2 + s3, s4);
    lemma_team_globs_concat(gh, s1 + s2 + s3 + s4, s5);
    lemma_team_globs_concat(gh, s1 + s2 + s3 + s4 + s5, s6);
    lemma_team_globs_concat(gh, s1 + s2 + s3 + s4 + s5 + s6, s7);
    assert(sections_spec(p) == s1 + s2 + s3 + s4 + s5 + s6 + s7);
}

} // verus!
