//! Task bodies: what runs when a task fires.
//!
//! A body holds the part of a task's description that it acts on. Running
//! one means network, process or file work, which the host does; what a
//! body decides before and after that work is computed here.

use crate::message::{
    texts, CommandSpec, CommandSpecView, FileSpec, HostSpec, HostSpecView, TaskError,
    TaskErrorView, TaskType, TaskTypeView,
};
use crate::text::{
    append_chars, begins_at, chars_of, find_crlf, has_crlf, holds_word, lines, lines_of, rows,
    run_end, starts_with, string_of, trim_start, words, words_of, CharClass,
};
use vstd::prelude::*;

verus! {

/// Downloads a file.
pub struct FileUpdateTask {
    pub file_spec: FileSpec,
}

/// Runs a command.
pub struct CommandTask {
    pub command_spec: CommandSpec,
}

/// Edits the hosts file.
pub struct HostTask {
    pub host_spec: HostSpec,
}

/// Any of the three bodies.
pub enum AsyncTask {
    FileUpdate(FileUpdateTask),
    Command(CommandTask),
    Hosts(HostTask),
}

impl View for AsyncTask {
    type V = TaskTypeView;

    open spec fn view(&self) -> TaskTypeView {
        match self {
            AsyncTask::FileUpdate(t) => TaskTypeView::FileUpdate(t.file_spec@),
            AsyncTask::Command(t) => TaskTypeView::Command(t.command_spec@),
            AsyncTask::Hosts(t) => TaskTypeView::Hosts(t.host_spec@),
        }
    }
}

impl AsyncTask {
    /// The body that `task` describes.
    pub fn make(task: &TaskType) -> (r: AsyncTask)
        ensures
            r@ == task@,
    {
        match task {
            TaskType::FileUpdate(spec) => AsyncTask::FileUpdate(
                FileUpdateTask { file_spec: spec.dup() },
            ),
            TaskType::Command(spec) => AsyncTask::Command(CommandTask { command_spec: spec.dup() }),
            TaskType::Hosts(spec) => AsyncTask::Hosts(HostTask { host_spec: spec.dup() }),
        }
    }

    /// A copy of this body.
    pub fn dup(&self) -> (r: AsyncTask)
        ensures
            r@ == self@,
    {
        match self {
            AsyncTask::FileUpdate(t) => AsyncTask::FileUpdate(
                FileUpdateTask { file_spec: t.file_spec.dup() },
            ),
            AsyncTask::Command(t) => AsyncTask::Command(
                CommandTask { command_spec: t.command_spec.dup() },
            ),
            AsyncTask::Hosts(t) => AsyncTask::Hosts(HostTask { host_spec: t.host_spec.dup() }),
        }
    }
}

/// The texts `parts` with one space between every two of them.
pub open spec fn joined(parts: Seq<Seq<char>>) -> Seq<char>
    decreases parts.len(),
{
    if parts.len() == 0 {
        Seq::empty()
    } else if parts.len() == 1 {
        parts[0]
    } else {
        joined(parts.drop_last()) + " "@ + parts.last()
    }
}

/// The program and its arguments, as they are handed to the system: the
/// command and its arguments as they stand, or wrapped for the shell of the
/// platform `os`. On Windows the shell gets them as they stand; on Linux it
/// gets them joined into one argument. No other platform has a shell here.
pub open spec fn command_line(spec: CommandSpecView, os: Seq<char>) -> Result<
    Seq<Seq<char>>,
    TaskErrorView,
> {
    let plain = seq![spec.cmd] + spec.args;
    if !spec.shell {
        Ok(plain)
    } else if os == "windows"@ {
        Ok(seq!["C:\\Windows\\System32\\cmd.exe"@, "/C"@] + plain)
    } else if os == "linux"@ {
        Ok(seq!["/bin/sh"@, "-c"@, joined(plain)])
    } else {
        Err(TaskErrorView::UnsupportedPlatform(os))
    }
}

/// A command line in contracts.
pub open spec fn command_line_view(r: Result<Vec<String>, TaskError>) -> Result<
    Seq<Seq<char>>,
    TaskErrorView,
> {
    match r {
        Ok(v) => Ok(texts(v@)),
        Err(e) => Err(e@),
    }
}

/// Joins `parts` with single spaces.
pub fn join_words(parts: &Vec<String>) -> (r: String)
    ensures
        r@ == joined(texts(parts@)),
{
    let mut r = String::new();
    let mut i: usize = 0;
    assert(texts(parts@).take(0) =~= Seq::<Seq<char>>::empty());
    while i < parts.len()
        invariant
            i <= parts.len(),
            r@ == joined(texts(parts@).take(i as int)),
        decreases parts.len() - i,
    {
        let ghost head = texts(parts@).take(i as int);
        let ghost next = texts(parts@).take(i as int + 1);
        if i > 0 {
            r.append(" ");
        }
        r.append(parts[i].as_str());
        proof {
            assert(next.drop_last() =~= head);
            assert(next.last() == parts@[i as int]@);
            if i == 0 {
                assert(r@ =~= parts@[0]@);
            }
        }
        i = i + 1;
    }
    assert(texts(parts@).take(parts.len() as int) =~= texts(parts@));
    r
}

impl CommandTask {
    /// The program to start and its arguments on the platform `os`, which
    /// is `windows`, `linux` or something else.
    pub fn command_line(&self, os: &str) -> (r: Result<Vec<String>, TaskError>)
        ensures
            command_line_view(r) == command_line(self.command_spec@, os@),
    {
        let mut args: Vec<String> = Vec::new();
        args.push(self.command_spec.cmd.clone());
        let mut i: usize = 0;
        while i < self.command_spec.args.len()
            invariant
                i <= self.command_spec.args.len(),
                texts(args@) == seq![self.command_spec.cmd@] + texts(self.command_spec.args@).take(
                    i as int,
                ),
            decreases self.command_spec.args.len() - i,
        {
            let ghost before = texts(args@);
            let ghost all = texts(self.command_spec.args@);
            args.push(self.command_spec.args[i].clone());
            proof {
                assert(texts(args@) =~= before.push(all[i as int]));
                assert(all.take(i as int + 1) =~= all.take(i as int).push(all[i as int]));
                assert(before.push(all[i as int]) =~= seq![self.command_spec.cmd@] + all.take(
                    i as int + 1,
                ));
            }
            i = i + 1;
        }
        assert(texts(self.command_spec.args@).take(self.command_spec.args.len() as int) =~= texts(
            self.command_spec.args@,
        ));
        if !self.command_spec.shell {
            return Ok(args);
        }
        let platform = String::from_str(os);
        if platform == String::from_str("windows") {
            let mut line: Vec<String> = Vec::new();
            line.push(String::from_str("C:\\Windows\\System32\\cmd.exe"));
            line.push(String::from_str("/C"));
            let ghost plain = texts(args@);
            let mut j: usize = 0;
            while j < args.len()
                invariant
                    j <= args.len(),
                    plain == texts(args@),
                    texts(line@) == seq!["C:\\Windows\\System32\\cmd.exe"@, "/C"@] + plain.take(
                        j as int,
                    ),
                decreases args.len() - j,
            {
                let ghost before = texts(line@);
                line.push(args[j].clone());
                proof {
                    assert(texts(line@) =~= before.push(plain[j as int]));
                    assert(plain.take(j as int + 1) =~= plain.take(j as int).push(plain[j as int]));
                    assert(before.push(plain[j as int]) =~= seq![
                        "C:\\Windows\\System32\\cmd.exe"@,
                        "/C"@,
                    ] + plain.take(j as int + 1));
                }
                j = j + 1;
            }
            assert(plain.take(args.len() as int) =~= plain);
            Ok(line)
        } else if platform == String::from_str("linux") {
            let mut line: Vec<String> = Vec::new();
            line.push(String::from_str("/bin/sh"));
            line.push(String::from_str("-c"));
            line.push(join_words(&args));
            assert(texts(line@) =~= seq!["/bin/sh"@, "-c"@, joined(texts(args@))]);
            Ok(line)
        } else {
            Err(TaskError::UnsupportedPlatform(platform))
        }
    }
}

/// Each of `hs` with a space before it.
pub open spec fn spaced(hs: Seq<Seq<char>>) -> Seq<char>
    decreases hs.len(),
{
    if hs.len() == 0 {
        Seq::empty()
    } else {
        spaced(hs.drop_last()) + seq![' '] + hs.last()
    }
}

/// The names on a line of the hosts file: its words after the first.
pub open spec fn names(line: Seq<char>) -> Seq<Seq<char>> {
    let w = words(line);
    if w.len() == 0 {
        w
    } else {
        w.skip(1)
    }
}

/// The names of `hosts` that `origin` lists, in the order of `hosts`.
pub open spec fn listed(hosts: Seq<Seq<char>>, origin: Seq<Seq<char>>) -> Seq<Seq<char>> {
    hosts.filter(|h: Seq<char>| origin.contains(h))
}

/// Whether a line is the line of the address `ip`: after its leading white
/// space it begins with `ip`.
pub open spec fn is_line_of(line: Seq<char>, ip: Seq<char>) -> bool {
    starts_with(trim_start(line), ip)
}

/// What a line of the hosts file becomes: the line of `ip` becomes `ip`,
/// the names it had, and once more those of `hosts` that were among them;
/// any other line stays.
pub open spec fn rewritten_line(line: Seq<char>, spec: HostSpecView) -> Seq<char> {
    if is_line_of(line, spec.ip) {
        spec.ip + spaced(names(line)) + spaced(listed(spec.hosts, names(line)))
    } else {
        line
    }
}

/// The lines `ls`, each rewritten and ended with `eol`.
pub open spec fn rendered(ls: Seq<Seq<char>>, spec: HostSpecView, eol: Seq<char>) -> Seq<char>
    decreases ls.len(),
{
    if ls.len() == 0 {
        Seq::empty()
    } else {
        rendered(ls.drop_last(), spec, eol) + rewritten_line(ls.last(), spec) + eol
    }
}

/// Whether one of `ls` is a line of `ip`.
pub open spec fn any_line_of(ls: Seq<Seq<char>>, ip: Seq<char>) -> bool {
    exists|i: int| 0 <= i < ls.len() && is_line_of(#[trigger] ls[i], ip)
}

/// The line ending of a hosts file: carriage return and line feed where the
/// file has that pair anywhere, else a line feed.
pub open spec fn line_ending(content: Seq<char>) -> Seq<char> {
    if has_crlf(content) {
        seq!['\r', '\n']
    } else {
        seq!['\n']
    }
}

/// The hosts file `content` after `spec` is applied: every line rewritten
/// and ended with the file's line ending; where no line is the line of the
/// address, a new line with the address and every name is added at the end.
pub open spec fn rewritten_hosts(content: Seq<char>, spec: HostSpecView) -> Seq<char> {
    let ls = lines(content);
    let eol = line_ending(content);
    rendered(ls, spec, eol) + if any_line_of(ls, spec.ip) {
        Seq::<char>::empty()
    } else {
        spec.ip + spaced(spec.hosts) + eol
    }
}

/// Appends each of `hs` with a space before it.
pub fn append_spaced(out: &mut Vec<char>, hs: &Vec<Vec<char>>)
    ensures
        final(out)@ == old(out)@ + spaced(rows(hs@)),
{
    let mut i: usize = 0;
    assert(rows(hs@).take(0) =~= Seq::<Seq<char>>::empty());
    assert(out@ =~= old(out)@ + spaced(rows(hs@).take(0)));
    while i < hs.len()
        invariant
            i <= hs.len(),
            out@ == old(out)@ + spaced(rows(hs@).take(i as int)),
        decreases hs.len() - i,
    {
        let ghost head = rows(hs@).take(i as int);
        let ghost next = rows(hs@).take(i as int + 1);
        out.push(' ');
        append_chars(out, &hs[i]);
        proof {
            assert(next.drop_last() =~= head);
            assert(next.last() == hs@[i as int]@);
            assert(out@ =~= old(out)@ + spaced(next));
        }
        i = i + 1;
    }
    assert(rows(hs@).take(hs.len() as int) =~= rows(hs@));
}

/// The names on `line`.
pub fn names_of(line: &Vec<char>) -> (r: Vec<Vec<char>>)
    ensures
        rows(r@) == names(line@),
{
    let mut w = words_of(line);
    if w.len() > 0 {
        let ghost before = rows(w@);
        w.remove(0);
        assert(rows(w@) =~= before.skip(1));
    }
    w
}

/// The names of `hosts` that `origin` lists.
pub fn listed_of(hosts: &Vec<Vec<char>>, origin: &Vec<Vec<char>>) -> (r: Vec<Vec<char>>)
    ensures
        rows(r@) == listed(rows(hosts@), rows(origin@)),
{
    let ghost keep = |h: Seq<char>| rows(origin@).contains(h);
    let ghost all = rows(hosts@);
    let mut r: Vec<Vec<char>> = Vec::new();
    let mut i: usize = 0;
    assert(all.take(0) =~= Seq::<Seq<char>>::empty());
    assert(rows(r@) =~= all.take(0).filter(keep));
    while i < hosts.len()
        invariant
            i <= hosts.len(),
            all == rows(hosts@),
            keep == |h: Seq<char>| rows(origin@).contains(h),
            rows(r@) == all.take(i as int).filter(keep),
        decreases hosts.len() - i,
    {
        let ghost head = all.take(i as int);
        let ghost x = all[i as int];
        let ghost before = rows(r@);
        proof {
            assert(all.take(i as int + 1) =~= head + seq![x]);
            Seq::filter_distributes_over_add(head, seq![x], keep);
            Seq::<Seq<char>>::lemma_filter_prepend(Seq::<Seq<char>>::empty(), x, keep);
            assert(seq![x] =~= seq![x] + Seq::<Seq<char>>::empty());
            assert(Seq::<Seq<char>>::empty().filter(keep) =~= Seq::<Seq<char>>::empty());
        }
        if holds_word(origin, &hosts[i]) {
            let mut copy: Vec<char> = Vec::new();
            append_chars(&mut copy, &hosts[i]);
            r.push(copy);
            proof {
                assert(seq![x].filter(keep) =~= seq![x]);
                assert(rows(r@) =~= before + seq![x]);
            }
        } else {
            proof {
                assert(seq![x].filter(keep) =~= Seq::<Seq<char>>::empty());
                assert(rows(r@) =~= before + Seq::<Seq<char>>::empty());
            }
        }
        i = i + 1;
    }
    assert(all.take(hosts.len() as int) =~= all);
    r
}

/// Whether `line` is the line of the address `ip`.
pub fn line_is_of(line: &Vec<char>, ip: &Vec<char>) -> (r: bool)
    ensures
        r == is_line_of(line@, ip@),
{
    let start = run_end(line, 0, CharClass::Space);
    assert(line@.skip(0) =~= line@);
    begins_at(line, start, ip)
}

impl HostTask {
    /// The hosts file `content` after the task's description is applied.
    pub fn rewrite(&self, content: &str) -> (r: String)
        ensures
            r@ == rewritten_hosts(content@, self.host_spec@),
    {
        let text = chars_of(content);
        let ip = chars_of(self.host_spec.ip.as_str());
        let mut hosts: Vec<Vec<char>> = Vec::new();
        let mut h: usize = 0;
        while h < self.host_spec.hosts.len()
            invariant
                h <= self.host_spec.hosts.len(),
                hosts@.len() == h,
                forall|j: int| 0 <= j < h ==> (#[trigger] hosts@[j])@ == self.host_spec.hosts@[j]@,
            decreases self.host_spec.hosts.len() - h,
        {
            hosts.push(chars_of(self.host_spec.hosts[h].as_str()));
            h = h + 1;
        }
        assert(rows(hosts@) =~= self.host_spec@.hosts);
        let ghost spec = self.host_spec@;
        let mut eol: Vec<char> = Vec::new();
        if find_crlf(&text) {
            eol.push('\r');
        }
        eol.push('\n');
        assert(eol@ =~= line_ending(text@));
        let ls = lines_of(&text);
        let mut out: Vec<char> = Vec::new();
        let mut found = false;
        let mut i: usize = 0;
        assert(rows(ls@).take(0) =~= Seq::<Seq<char>>::empty());
        while i < ls.len()
            invariant
                i <= ls.len(),
                spec == self.host_spec@,
                ip@ == spec.ip,
                rows(hosts@) == spec.hosts,
                out@ == rendered(rows(ls@).take(i as int), spec, eol@),
                found == any_line_of(rows(ls@).take(i as int), spec.ip),
            decreases ls.len() - i,
        {
            let ghost head = rows(ls@).take(i as int);
            let ghost next = rows(ls@).take(i as int + 1);
            let ghost before = out@;
            proof {
                assert(next.drop_last() =~= head);
                assert(next.last() == ls@[i as int]@);
            }
            let hit = line_is_of(&ls[i], &ip);
            if hit {
                found = true;
                append_chars(&mut out, &ip);
                let origin = names_of(&ls[i]);
                append_spaced(&mut out, &origin);
                let keep = listed_of(&hosts, &origin);
                append_spaced(&mut out, &keep);
            } else {
                append_chars(&mut out, &ls[i]);
            }
            append_chars(&mut out, &eol);
            proof {
                assert(out@ =~= before + rewritten_line(next.last(), spec) + eol@);
                if any_line_of(head, spec.ip) {
                    let w = choose|w: int| 0 <= w < head.len() && is_line_of(#[trigger] head[w], spec.ip);
                    assert(next[w] == head[w]);
                }
                if hit {
                    assert(is_line_of(next[i as int], spec.ip));
                }
                if any_line_of(next, spec.ip) && !hit {
                    let w = choose|w: int| 0 <= w < next.len() && is_line_of(#[trigger] next[w], spec.ip);
                    assert(w < i);
                    assert(head[w] == next[w]);
                }
            }
            i = i + 1;
        }
        assert(rows(ls@).take(ls.len() as int) =~= rows(ls@));
        if !found {
            append_chars(&mut out, &ip);
            append_spaced(&mut out, &hosts);
            append_chars(&mut out, &eol);
        }
        assert(out@ =~= rewritten_hosts(content@, spec));
        string_of(&out)
    }
}

} // verus!
