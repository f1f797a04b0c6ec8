//! The diagnostic log: where it goes and what its lines look like.

use vstd::prelude::*;

use crate::path;
use crate::path::join_path;
use crate::text;
use crate::text::{
    append_left, append_right, append_run, format_u64, has_prefix, owned, split_at_char,
    split_lines,
};

verus! {

/// The home directory on a line of the user database: its sixth field.
pub open spec fn home_field(line: Seq<char>) -> Option<Seq<char>> {
    let fields = text::split(line, ':');
    if fields.len() > 5 {
        Some(fields[5])
    } else {
        None
    }
}

/// The home directory on the first line of that user at or after `i`.
pub open spec fn home_from(lines: Seq<Seq<char>>, user: Seq<char>, i: int) -> Option<Seq<char>>
    decreases lines.len() - i,
{
    if i >= lines.len() {
        None
    } else if text::starts_with(lines[i], user + seq![':']) {
        home_field(lines[i])
    } else {
        home_from(lines, user, i + 1)
    }
}

/// The home directory of a user in the text of the user database.
pub fn user_home(passwd: &str, user: &str) -> (r: Option<String>)
    ensures
        text::opt_text(r) == home_from(text::lines(passwd@), user@, 0),
{
    let mut start: String = owned(user);
    start.push(':');
    assert(start@ =~= user@ + seq![':']);
    let all = split_lines(passwd);
    let ghost l = text::lines(passwd@);
    assert(all@.len() == text::texts(all@).len());
    let mut i: usize = 0;
    while i < all.len()
        invariant
            start@ == user@ + seq![':'],
            l == text::lines(passwd@),
            text::texts(all@) == l,
            all@.len() == l.len(),
            i <= all@.len(),
            home_from(l, user@, 0) == home_from(l, user@, i as int),
        decreases all@.len() - i,
    {
        assert(all@[i as int]@ == l[i as int]);
        if has_prefix(all[i].as_str(), start.as_str()) {
            let fields = split_at_char(all[i].as_str(), ':');
            assert(text::texts(fields@).len() == fields@.len());
            if fields.len() > 5 {
                assert(text::texts(fields@)[5] == fields@[5]@);
                return Some(owned(fields[5].as_str()));
            }
            return None;
        }
        i = i + 1;
    }
    None
}

/// The home directory for the log: that of the user behind `sudo`, where it
/// can be found, else that of the environment, else `/tmp`.
pub open spec fn log_home(
    sudo_user: Option<Seq<char>>,
    passwd: Option<Seq<char>>,
    home: Option<Seq<char>>,
) -> Seq<char> {
    let found = match (sudo_user, passwd) {
        (Some(user), Some(pw)) => home_from(text::lines(pw), user, 0),
        _ => None,
    };
    match found {
        Some(h) => h,
        None => match home {
            Some(h) => h,
            None => "/tmp"@,
        },
    }
}

/// The path of the diagnostic log.
pub fn diagnostic_log_path(
    sudo_user: &Option<String>,
    passwd: &Option<String>,
    home: &Option<String>,
) -> (r: String)
    ensures
        r@ == path::joined(
            log_home(text::opt_text(*sudo_user), text::opt_text(*passwd), text::opt_text(*home)),
            "ulatencyd-diagnostic.txt"@,
        ),
{
    let found: Option<String> = match sudo_user {
        Some(user) => match passwd {
            Some(pw) => user_home(pw.as_str(), user.as_str()),
            None => None,
        },
        None => None,
    };
    let dir: String = match found {
        Some(h) => h,
        None => match home {
            Some(h) => owned(h.as_str()),
            None => owned("/tmp"),
        },
    };
    join_path(dir.as_str(), "ulatencyd-diagnostic.txt")
}

/// The head of the log.
pub fn log_header(started: &str) -> (r: String)
    ensures
        r@ == "ulatencyd-rs diagnostic log\nStarted: "@ + started@ + seq!['\n'] + text::repeated(
            '=',
            60,
        ) + seq!['\n', '\n'],
{
    let mut h: String = String::new();
    h.append("ulatencyd-rs diagnostic log\nStarted: ");
    h.append(started);
    h.push('\n');
    append_run(&mut h, '=', 60);
    h.push('\n');
    h.push('\n');
    assert(h@ =~= "ulatencyd-rs diagnostic log\nStarted: "@ + started@ + seq!['\n']
        + text::repeated('=', 60) + seq!['\n', '\n']);
    h
}

/// A line of the log: the time in seconds and microseconds, the category and
/// what is to be said.
pub open spec fn log_line(secs: u64, micros: u32, category: Seq<char>, detail: Seq<char>) -> Seq<
    char,
> {
    seq!['['] + text::right_column(text::decimal(secs as nat), 10, ' ') + seq!['.']
        + text::right_column(text::decimal(micros as nat), 6, '0') + seq![']', ' ']
        + text::left_column(category, 12) + seq![' '] + detail + seq!['\n']
}

/// A line of the log.
pub fn write_diag(secs: u64, micros: u32, category: &str, detail: &str) -> (r: String)
    ensures
        r@ == log_line(secs, micros, category@, detail@),
{
    let mut line: String = String::new();
    line.push('[');
    let s = format_u64(secs);
    append_right(&mut line, s.as_str(), 10, ' ');
    line.push('.');
    let m = format_u64(micros as u64);
    append_right(&mut line, m.as_str(), 6, '0');
    line.push(']');
    line.push(' ');
    append_left(&mut line, category, 12);
    line.push(' ');
    line.append(detail);
    line.push('\n');
    assert(line@ =~= log_line(secs, micros, category@, detail@));
    line
}

/// A line that opens a section.
pub fn diag_section(secs: u64, micros: u32, title: &str) -> (r: String)
    ensures
        r@ == log_line(secs, micros, "---"@, "=== "@ + title@ + " ==="@),
{
    let mut detail: String = String::new();
    detail.append("=== ");
    detail.append(title);
    detail.append(" ===");
    assert(detail@ =~= "=== "@ + title@ + " ==="@);
    write_diag(secs, micros, "---", detail.as_str())
}

/// The first line of a user decides where the home is, by its sixth field; for
/// a user without a line there is none.
pub proof fn first_line_of_the_user_decides(
    lines: Seq<Seq<char>>,
    user: Seq<char>,
    i: int,
    k: int,
)
    requires
        0 <= i <= lines.len(),
    ensures
        i <= k < lines.len() && text::starts_with(lines[k], user.push(':')) && (forall|j: int|
            i <= j < k ==> !text::starts_with(#[trigger] lines[j], user.push(':'))) ==> home_from(
            lines,
            user,
            i,
        ) == home_field(lines[k]),
        (forall|j: int|
            i <= j < lines.len() ==> !text::starts_with(#[trigger] lines[j], user.push(':')))
            ==> home_from(lines, user, i) is None,
    decreases lines.len() - i,
{
    assert(user + seq![':'] =~= user.push(':'));
    if i < lines.len() {
        first_line_of_the_user_decides(lines, user, i + 1, k);
        assert(lines[i] == lines[i]);
    }
}

/// The home is what stands between the fifth and the sixth colon.
pub proof fn home_is_the_sixth_field(
    before: Seq<char>,
    home: Seq<char>,
    shell: Seq<char>,
)
    requires
        text::split(before, ':').len() == 5,
        !home.contains(':'),
    ensures
        home_field(before.push(':') + home) == Some(home),
        home_field(before.push(':') + home.push(':') + shell) == Some(home),
        home_field(before) is None,
{
    text::separators_part_the_pieces(before, home, ':');
    text::separators_part_the_pieces(home, shell, ':');
    text::separators_part_the_pieces(before, home.push(':') + shell, ':');
    assert(before.push(':') + home.push(':') + shell =~= before.push(':') + (home.push(':')
        + shell));
    let all = text::split(before.push(':') + (home.push(':') + shell), ':');
    assert(all =~= text::split(before, ':') + (seq![home] + text::split(shell, ':')));
    assert(all[5] == home);
}

/// The log is in the home of the user who called for superuser rights, in that
/// of the caller where there is none, and in a place for temporary files where
/// that is unknown too.
pub proof fn log_goes_home(
    user: Seq<char>,
    passwd: Seq<char>,
    home: Seq<char>,
    found: Seq<char>,
)
    ensures
        home_from(text::lines(passwd), user, 0) == Some(found) ==> log_home(
            Some(user),
            Some(passwd),
            Some(home),
        ) == found && log_home(Some(user), Some(passwd), None) == found,
        home_from(text::lines(passwd), user, 0) is None ==> log_home(
            Some(user),
            Some(passwd),
            Some(home),
        ) == home,
        log_home(None, Some(passwd), Some(home)) == home,
        log_home(Some(user), None, Some(home)) == home,
        log_home(None, None, None) == "/tmp"@,
{
}

/// A line of the log has the time in front, with six digits behind the point,
/// then the category in its column and what happened.
pub proof fn log_line_holds_its_parts(
    secs: u64,
    micros: u32,
    category: Seq<char>,
    detail: Seq<char>,
)
    ensures
        log_line(secs, micros, category, detail) == seq!['['] + text::right_column(
            text::decimal(secs as nat),
            10,
            ' ',
        ) + seq!['.'] + text::right_column(text::decimal(micros as nat), 6, '0') + seq![']', ' ']
            + text::left_column(category, 12) + seq![' '] + detail + seq!['\n'],
        text::ends_with(log_line(secs, micros, category, detail), detail.push('\n')),
        text::contains(log_line(secs, micros, category, detail), category),
{
    let time = seq!['['] + text::right_column(text::decimal(secs as nat), 10, ' ') + seq!['.']
        + text::right_column(text::decimal(micros as nat), 6, '0') + seq![']', ' '];
    let column = text::left_column(category, 12);
    let line = log_line(secs, micros, category, detail);
    assert(line =~= time + column + seq![' '] + detail.push('\n'));
    text::parts_are_found(time + column + seq![' '], detail.push('\n'), Seq::empty());
    text::columns_are_filled(category, 12, ' ', 0);
    let rest = column.skip(category.len() as int) + seq![' '] + detail.push('\n');
    assert(column =~= category + column.skip(category.len() as int));
    assert(line =~= time + category + rest);
    text::parts_are_found(time, category, rest);
}

} // verus!
