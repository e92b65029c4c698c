//! Steps that change the machine: directories, files and commands.
use crate::text::{
    among, chars_of, join, joined, lemma_pieces_append, lemma_pieces_whole, lines_of, pieces, split_at, texts,
    trim, trimmed, without_return,
};
use vstd::prelude::*;

verus! {

/// A step that changes the machine.
#[derive(Debug, PartialEq, Eq)]
pub enum Step {
    /// Makes a directory and those above it.
    MakeDir(String),
    /// Runs a command, whatever comes of it.
    Run(String, Vec<String>),
    /// Runs a command that must succeed.
    Check(String, Vec<String>),
    /// Writes a file.
    Write(String, String),
}

/// What a step does.
pub ghost enum Deed {
    MakeDir(Seq<char>),
    Run(Seq<char>, Seq<Seq<char>>),
    Check(Seq<char>, Seq<Seq<char>>),
    Write(Seq<char>, Seq<char>),
}

impl View for Step {
    type V = Deed;

    open spec fn view(&self) -> Deed {
        match self {
            Step::MakeDir(p) => Deed::MakeDir(p@),
            Step::Run(c, a) => Deed::Run(c@, texts(a@)),
            Step::Check(c, a) => Deed::Check(c@, texts(a@)),
            Step::Write(p, t) => Deed::Write(p@, t@),
        }
    }
}

/// What steps do, one after another.
pub open spec fn deeds(steps: Seq<Step>) -> Seq<Deed> {
    steps.map_values(|s: Step| s@)
}

/// The step that runs a command with two arguments.
pub fn run_two(command: &str, a: &str, b: &str) -> (r: Step)
    ensures
        r@ == Deed::Run(command@, seq![a@, b@]),
{
    let args = vec![a.to_owned(), b.to_owned()];
    proof {
        assert(texts(args@) =~= seq![a@, b@]);
    }
    Step::Run(command.to_owned(), args)
}

/// The step that runs a command with one argument.
pub fn run_one(command: &str, a: &str) -> (r: Step)
    ensures
        r@ == Deed::Run(command@, seq![a@]),
{
    let args = vec![a.to_owned()];
    proof {
        assert(texts(args@) =~= seq![a@]);
    }
    Step::Run(command.to_owned(), args)
}

/// The step that runs a command with three arguments.
pub fn run_three(command: &str, a: &str, b: &str, c: &str) -> (r: Step)
    ensures
        r@ == Deed::Run(command@, seq![a@, b@, c@]),
{
    let args = vec![a.to_owned(), b.to_owned(), c.to_owned()];
    proof {
        assert(texts(args@) =~= seq![a@, b@, c@]);
    }
    Step::Run(command.to_owned(), args)
}

/// The step that makes a service read its settings again.
pub open spec fn reload_of(service: Seq<char>) -> Deed {
    Deed::Run("systemctl"@, seq!["reload"@, service])
}

/// The step that makes a service read its settings again.
pub fn reload(service: &str) -> (r: Step)
    ensures
        r@ == reload_of(service@),
{
    run_two("systemctl", "reload", service)
}

/// What a command that must succeed gives: what it wrote, trimmed, or what it
/// wrote of its failure.
pub open spec fn checked(command: Seq<char>, success: bool, stdout: Seq<char>, stderr: Seq<char>) -> Result<
    Seq<char>,
    Seq<char>,
> {
    if success {
        Ok(trimmed(stdout))
    } else {
        Err(command + " failed: "@ + stderr)
    }
}

/// Reads what a command that must succeed wrote.
pub fn command_checked(command: &str, success: bool, stdout: &str, stderr: &str) -> (r: Result<String, String>)
    ensures
        crate::outside::text_result(r) == checked(command@, success, stdout@, stderr@),
{
    if success {
        Ok(trim(stdout))
    } else {
        let mut out = command.to_owned();
        out.append(" failed: ");
        out.append(stderr);
        Err(out)
    }
}

/// A path below another; a path that starts at the root stands for itself.
pub open spec fn below(base: Seq<char>, part: Seq<char>) -> Seq<char> {
    if part.len() > 0 && part[0] == '/' {
        part
    } else if base.len() == 0 || base.last() == '/' {
        base + part
    } else {
        base + "/"@ + part
    }
}

/// Joins two paths.
pub fn join_path(base: &str, part: &str) -> (r: String)
    ensures
        r@ == below(base@, part@),
{
    let b = chars_of(base);
    let p = chars_of(part);
    if p.len() > 0 && p[0] == '/' {
        part.to_owned()
    } else if b.len() == 0 || b[b.len() - 1] == '/' {
        let mut out = base.to_owned();
        out.append(part);
        out
    } else {
        let mut out = base.to_owned();
        out.append("/");
        out.append(part);
        out
    }
}

/// The text of a file that holds these lines.
pub open spec fn file_of(list: Seq<Seq<char>>) -> Seq<char> {
    joined(list, "\n"@) + "\n"@
}

/// The text of a file that holds these lines.
pub fn file_text(list: &Vec<String>) -> (r: String)
    ensures
        r@ == file_of(texts(list@)),
{
    let mut out = join(list, "\n");
    out.append("\n");
    out
}

/// A file made of lines gives them back, if none of them holds a line feed; a
/// carriage return at the end of a line does not come back.
pub proof fn law_file_lines(list: Seq<Seq<char>>)
    requires
        list.len() > 0,
        forall|i: int, j: int| 0 <= i < list.len() && 0 <= j < list[i].len() ==> (#[trigger] list[i][j]) != '\n',
    ensures
        lines_of(file_of(list)) == list.map_values(|l: Seq<char>| without_return(l)),
{
    reveal_strlit("\n");
    let mark = among(seq!['\n']);
    let s = file_of(list);
    lemma_joined_pieces(list);
    let body = joined(list, "\n"@);
    assert(s =~= body.push('\n'));
    assert(s.drop_last() =~= body);
    assert(seq!['\n'].contains('\n')) by {
        assert(seq!['\n'][0] == '\n');
    }
    assert(mark('\n'));
    let p = split_at(s, '\n');
    assert(p == list.push(Seq::empty()));
    assert(p.drop_last() =~= list);
}

/// Joined lines come apart again at the line feeds.
proof fn lemma_joined_pieces(list: Seq<Seq<char>>)
    requires
        list.len() > 0,
        forall|i: int, j: int| 0 <= i < list.len() && 0 <= j < list[i].len() ==> (#[trigger] list[i][j]) != '\n',
    ensures
        split_at(joined(list, "\n"@), '\n') == list,
    decreases list.len(),
{
    let kind = among(seq!['\n']);
    let last = list.last();
    assert forall|j: int| 0 <= j < last.len() implies !kind(#[trigger] last[j]) by {
        assert(list[list.len() - 1][j] != '\n');
        assert(seq!['\n'].contains(last[j]) ==> last[j] == '\n');
    }
    if list.len() == 1 {
        lemma_pieces_whole(last, kind);
        assert(list =~= seq![last]);
    } else {
        reveal_strlit("\n");
        let init = list.drop_last();
        assert forall|i: int, j: int| 0 <= i < init.len() && 0 <= j < init[i].len() implies (#[trigger] init[i][j])
            != '\n' by {
            assert(list[i][j] != '\n');
        }
        lemma_joined_pieces(init);
        let body = joined(init, "\n"@);
        assert(joined(list, "\n"@) =~= body.push('\n') + last);
        let with_mark = body.push('\n');
        assert(with_mark.drop_last() =~= body);
        assert(seq!['\n'][0] == '\n');
        assert(kind('\n'));
        assert(pieces(with_mark, kind) == init.push(Seq::empty()));
        lemma_pieces_append(with_mark, last, kind);
        assert(init.push(Seq::<char>::empty()).drop_last() =~= init);
        assert(Seq::<char>::empty() + last =~= last);
        assert(init.push(last) =~= list);
    }
}

} // verus!
