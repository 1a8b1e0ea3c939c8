//! The list of workspaces: named directories, kept in a text file with one
//! `name=path` line for each.

use crate::text::{
    append_range, chars_equal, chars_of, find_char, join, lemma_join_push, lemma_position_of,
    lemma_split_join, line_texts, lines_of, position_of, split, string_of, text_lines,
    without_return,
};
use vstd::prelude::*;

verus! {

/// A named directory.
#[derive(Debug)]
pub struct Workspace {
    pub name: String,
    pub path: String,
}

/// What a workspace holds, as texts.
pub struct WorkspaceView {
    pub name: Seq<char>,
    pub path: Seq<char>,
}

impl View for Workspace {
    type V = WorkspaceView;

    open spec fn view(&self) -> WorkspaceView {
        WorkspaceView { name: self.name@, path: self.path@ }
    }
}

/// Why a change of the list was refused.
#[derive(Clone, Copy, Debug, PartialEq, Eq, Structural)]
pub enum WorkspaceError {
    /// A workspace of that name is in the list already.
    AlreadyExists,
}

/// What `workspaces` hold.
pub open spec fn views(workspaces: Seq<Workspace>) -> Seq<WorkspaceView> {
    workspaces.map_values(|workspace: Workspace| workspace@)
}

/// The workspace that a line names: what stands before its first `=` is the
/// name, what stands behind it the path. Nothing for a line without `=`.
pub open spec fn entry_of(line: Seq<char>) -> Option<WorkspaceView> {
    let at = position_of(line, '=');
    if at < line.len() {
        Some(WorkspaceView { name: line.take(at), path: line.skip(at + 1) })
    } else {
        None
    }
}

/// The workspaces that a file names, in the order of its lines. Lines that
/// name none are passed over.
pub open spec fn entries_of(content: Seq<char>) -> Seq<WorkspaceView> {
    text_lines(content).filter_map(|line: Seq<char>| entry_of(line))
}

/// The line that names a workspace.
pub open spec fn line_of(workspace: WorkspaceView) -> Seq<char> {
    workspace.name + seq!['='] + workspace.path
}

/// The text of the file that names `workspaces`: their lines, with a line
/// feed between each two.
pub open spec fn file_text(workspaces: Seq<WorkspaceView>) -> Seq<char> {
    join(workspaces.map_values(|workspace: WorkspaceView| line_of(workspace)), seq!['\n'])
}

/// Whether a workspace called `name` is in the list.
pub open spec fn has_name(workspaces: Seq<WorkspaceView>, name: Seq<char>) -> bool {
    exists|k: int| 0 <= k < workspaces.len() && (#[trigger] workspaces[k]).name == name
}

/// Reads the list of workspaces from the text of its file.
pub fn parse_workspaces(content: &str) -> (workspaces: Vec<Workspace>)
    ensures
        views(workspaces@) == entries_of(content@),
{
    let text = chars_of(content);
    let lines = lines_of(text.as_slice());
    let ghost all = text_lines(content@);
    let ghost read = |line: Seq<char>| entry_of(line);
    let mut workspaces: Vec<Workspace> = Vec::new();
    let mut k: usize = 0;
    proof {
        assert(all.take(0) =~= Seq::<Seq<char>>::empty());
        assert(views(workspaces@) =~= all.take(0).filter_map(read));
    }
    while k < lines.len()
        invariant
            k <= lines@.len(),
            line_texts(lines@) == all,
            all == text_lines(content@),
            read == |line: Seq<char>| entry_of(line),
            views(workspaces@) == all.take(k as int).filter_map(read),
        decreases lines.len() - k,
    {
        let line = lines[k].as_slice();
        proof {
            assert(all[k as int] == line@);
            assert(all.take(k as int + 1).drop_last() =~= all.take(k as int));
            assert(all.take(k as int + 1).last() == line@);
        }
        let at = find_char(line, '=');
        if at < line.len() {
            let workspace = Workspace {
                name: string_of(&line[0..at]),
                path: string_of(&line[at + 1..line.len()]),
            };
            proof {
                assert(line@.subrange(0, at as int) =~= line@.take(at as int));
                assert(line@.subrange(at as int + 1, line@.len() as int) =~= line@.skip(
                    at as int + 1,
                ));
                let before = workspaces@;
                assert(views(before.push(workspace)) =~= views(before) + seq![workspace@]);
            }
            workspaces.push(workspace);
        }
        k += 1;
    }
    assert(all.take(all.len() as int) =~= all);
    workspaces
}

/// Writes the list of workspaces as the text of its file.
pub fn workspaces_content(workspaces: &[Workspace]) -> (content: String)
    ensures
        content@ == file_text(views(workspaces@)),
{
    let ghost all = views(workspaces@);
    let ghost write = |workspace: WorkspaceView| line_of(workspace);
    let mut text: Vec<char> = Vec::new();
    let mut k: usize = 0;
    proof {
        assert(all.take(0).map_values(write) =~= Seq::<Seq<char>>::empty());
    }
    while k < workspaces.len()
        invariant
            k <= workspaces@.len(),
            all == views(workspaces@),
            write == |workspace: WorkspaceView| line_of(workspace),
            text@ == join(all.take(k as int).map_values(write), seq!['\n']),
        decreases workspaces.len() - k,
    {
        let ghost before = text@;
        if k > 0 {
            text.push('\n');
        }
        let name = chars_of(workspaces[k].name.as_str());
        let path = chars_of(workspaces[k].path.as_str());
        append_range(&mut text, name.as_slice(), 0, name.len());
        text.push('=');
        append_range(&mut text, path.as_slice(), 0, path.len());
        proof {
            let line = line_of(all[k as int]);
            assert(name@.subrange(0, name@.len() as int) =~= name@);
            assert(path@.subrange(0, path@.len() as int) =~= path@);
            assert(all[k as int] == workspaces@[k as int]@);
            let lines = all.take(k as int).map_values(write);
            assert(all.take(k as int + 1).map_values(write) =~= lines.push(line));
            lemma_join_push(lines, line, seq!['\n']);
            assert(k > 0 ==> text@ =~= before + seq!['\n'] + line);
            assert(k == 0 ==> text@ =~= line);
        }
        k += 1;
    }
    assert(all.take(all.len() as int) =~= all);
    string_of(text.as_slice())
}

/// Where the first workspace called `name` stands in the list.
pub fn find_workspace(workspaces: &[Workspace], name: &str) -> (found: Option<usize>)
    ensures
        match found {
            Some(k) => {
                &&& k < workspaces@.len()
                &&& workspaces@[k as int].name@ == name@
                &&& forall|j: int| 0 <= j < k ==> workspaces@[j].name@ != name@
            },
            None => !has_name(views(workspaces@), name@),
        },
{
    let wanted = chars_of(name);
    let mut k: usize = 0;
    while k < workspaces.len()
        invariant
            k <= workspaces@.len(),
            wanted@ == name@,
            forall|j: int| 0 <= j < k ==> workspaces@[j].name@ != name@,
        decreases workspaces.len() - k,
    {
        let have = chars_of(workspaces[k].name.as_str());
        if chars_equal(have.as_slice(), wanted.as_slice()) {
            return Some(k);
        }
        k += 1;
    }
    assert forall|j: int| 0 <= j < views(workspaces@).len() implies (#[trigger] views(
        workspaces@,
    )[j]).name != name@ by {
        assert(views(workspaces@)[j] == workspaces@[j]@);
    }
    None
}

/// Adds a workspace to the end of the list, unless one of that name is in it
/// already: then the list stays as it is.
pub fn create_workspace(workspaces: &mut Vec<Workspace>, name: &str, path: &str) -> (r: Result<
    (),
    WorkspaceError,
>)
    ensures
        match r {
            Ok(()) => {
                &&& !has_name(views(old(workspaces)@), name@)
                &&& views(final(workspaces)@) == views(old(workspaces)@).push(
                    WorkspaceView { name: name@, path: path@ },
                )
            },
            Err(e) => {
                &&& e == WorkspaceError::AlreadyExists
                &&& has_name(views(old(workspaces)@), name@)
                &&& *final(workspaces) == *old(workspaces)
            },
        },
{
    match find_workspace(workspaces.as_slice(), name) {
        Some(k) => {
            assert(views(workspaces@)[k as int] == workspaces@[k as int]@);
            Err(WorkspaceError::AlreadyExists)
        },
        None => {
            let workspace = Workspace { name: name.to_owned(), path: path.to_owned() };
            let ghost before = workspaces@;
            workspaces.push(workspace);
            assert(views(before.push(workspace)) =~= views(before).push(workspace@));
            Ok(())
        },
    }
}

/// The same as `create_workspace`.
pub fn init_workspace(workspaces: &mut Vec<Workspace>, name: &str, path: &str) -> (r: Result<
    (),
    WorkspaceError,
>)
    ensures
        match r {
            Ok(()) => {
                &&& !has_name(views(old(workspaces)@), name@)
                &&& views(final(workspaces)@) == views(old(workspaces)@).push(
                    WorkspaceView { name: name@, path: path@ },
                )
            },
            Err(e) => {
                &&& e == WorkspaceError::AlreadyExists
                &&& has_name(views(old(workspaces)@), name@)
                &&& *final(workspaces) == *old(workspaces)
            },
        },
{
    create_workspace(workspaces, name, path)
}

/// Whether a workspace can be written to the file and read back: its name
/// holds no `=`, neither its name nor its path holds a line feed, and its
/// path does not end in a carriage return.
pub open spec fn writable(workspace: WorkspaceView) -> bool {
    &&& forall|j: int| 0 <= j < workspace.name.len() ==> workspace.name[j] != '=' && workspace.name[j] != '\n'
    &&& forall|j: int| 0 <= j < workspace.path.len() ==> workspace.path[j] != '\n'
    &&& workspace.path.len() > 0 ==> workspace.path.last() != '\r'
}

/// The line of a workspace that can be written names that workspace.
proof fn lemma_line_reads_back(workspace: WorkspaceView)
    requires
        writable(workspace),
    ensures
        entry_of(line_of(workspace)) == Some(workspace),
        line_of(workspace).len() > 0,
        without_return(line_of(workspace)) == line_of(workspace),
        forall|j: int| 0 <= j < line_of(workspace).len() ==> line_of(workspace)[j] != '\n',
{
    let line = line_of(workspace);
    let at = workspace.name.len() as int;
    assert(line[at] == '=');
    lemma_position_of(line, '=', at);
    assert(line.take(at) =~= workspace.name);
    assert(line.skip(at + 1) =~= workspace.path);
}

/// What is written reads back: the file of a list of workspaces that can be
/// written names those workspaces, in their order.
pub proof fn lemma_file_reads_back(workspaces: Seq<WorkspaceView>)
    requires
        forall|k: int| 0 <= k < workspaces.len() ==> writable(#[trigger] workspaces[k]),
    ensures
        entries_of(file_text(workspaces)) == workspaces,
{
    let write = |workspace: WorkspaceView| line_of(workspace);
    let read = |line: Seq<char>| entry_of(line);
    let strip = |piece: Seq<char>| without_return(piece);
    let lines = workspaces.map_values(write);
    let content = file_text(workspaces);
    if workspaces.len() == 0 {
        assert(content =~= Seq::<char>::empty());
        assert(split(content, '\n') =~= seq![Seq::<char>::empty()]);
        assert(text_lines(content) =~= Seq::<Seq<char>>::empty());
        assert(entries_of(content) =~= workspaces);
    } else {
        assert forall|k: int, j: int| 0 <= k < lines.len() && 0 <= j < lines[k].len() implies lines[k][j]
            != '\n' by {
            lemma_line_reads_back(workspaces[k]);
        }
        lemma_split_join(lines, '\n');
        lemma_line_reads_back(workspaces.last());
        assert(lines.last() == line_of(workspaces.last()));
        assert(lines.drop_last().map_values(strip).push(lines.last()) =~= lines) by {
            assert forall|k: int| 0 <= k < lines.len() - 1 implies without_return(lines[k])
                == lines[k] by {
                lemma_line_reads_back(workspaces[k]);
            }
        }
        assert(text_lines(content) == lines);
        lemma_lines_read_back(workspaces);
    }
}

/// The lines of workspaces that can be written name those workspaces.
proof fn lemma_lines_read_back(workspaces: Seq<WorkspaceView>)
    requires
        forall|k: int| 0 <= k < workspaces.len() ==> writable(#[trigger] workspaces[k]),
    ensures
        workspaces.map_values(|workspace: WorkspaceView| line_of(workspace)).filter_map(
            |line: Seq<char>| entry_of(line),
        ) == workspaces,
    decreases workspaces.len(),
{
    let write = |workspace: WorkspaceView| line_of(workspace);
    let read = |line: Seq<char>| entry_of(line);
    let lines = workspaces.map_values(write);
    if workspaces.len() == 0 {
        assert(lines.filter_map(read) =~= workspaces);
    } else {
        let init = workspaces.drop_last();
        assert forall|k: int| 0 <= k < init.len() implies writable(#[trigger] init[k]) by {
            assert(init[k] == workspaces[k]);
        }
        lemma_lines_read_back(init);
        lemma_line_reads_back(workspaces.last());
        assert(lines.drop_last() =~= init.map_values(write));
        assert(lines.last() == line_of(workspaces.last()));
        assert(init.push(workspaces.last()) =~= workspaces);
        assert(lines.filter_map(read) =~= init + seq![workspaces.last()]);
    }
}

} // verus!
