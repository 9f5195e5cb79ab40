//! Reading the files of a code base as one text, and writing generated ones.
use crate::compose;
use crate::compose::to_lower;
use crate::failure;
use crate::failure::Failure;
use crate::skills::ordering;
use crate::skills::ordering::{arrange, push_text_key, push_texts_key, Keyed};
use crate::text;
use crate::text::same;
use crate::utils::path;
use crate::utils::path::{normalize_relative_path, relative_path_from_root};
use crate::utils::posix;
use crate::utils::posix::{path_components, path_join, path_parent};
use vstd::prelude::*;

verus! {

// ---------------------------------------------------------------------------
// Skills
// ---------------------------------------------------------------------------
/// Something that an agent can do.
pub trait Skill {
    spec fn label(&self) -> Seq<char>;

    fn name(&self) -> (res: &str)
        ensures
            res@ == self.label(),
    ;
}

/// Reads source files as text.
#[derive(Debug, Default, Clone, Copy)]
pub struct FileIOSkill;

/// Writes generated files.
#[derive(Debug, Default, Clone, Copy)]
pub struct FileWriteSkill;

impl Skill for FileIOSkill {
    open spec fn label(&self) -> Seq<char> {
        "file_io"@
    }

    fn name(&self) -> (res: &str) {
        "file_io"
    }
}

impl Skill for FileWriteSkill {
    open spec fn label(&self) -> Seq<char> {
        "file_write"@
    }

    fn name(&self) -> (res: &str) {
        "file_write"
    }
}

/// What a path leads to: nothing, a directory, a regular file, or another thing, such as a device
/// or a pipe.
#[derive(Debug, Clone, Copy, PartialEq, Eq, Structural)]
pub enum FileState {
    Missing,
    Directory,
    File,
    Other,
}

// ---------------------------------------------------------------------------
// Arguments
// ---------------------------------------------------------------------------
/// The directory that a skill is asked to work on.
pub open spec fn root_argument(skill: Seq<char>, args: Seq<Seq<char>>) -> Result<
    Seq<char>,
    Seq<Seq<char>>,
> {
    if args.len() == 0 {
        Err(failure::plain(skill + " expects a directory path as the first argument"@))
    } else {
        Ok(args[0])
    }
}

pub fn skill_root(skill: &str, args: &[String]) -> (res: Result<String, Failure>)
    ensures
        root_argument(skill@, args.deep_view()) == match res {
            Ok(root) => Ok::<Seq<char>, Seq<Seq<char>>>(root@),
            Err(error) => Err::<Seq<char>, Seq<Seq<char>>>(error@),
        },
{
    assert(args.deep_view().len() == args@.len());
    if args.len() == 0 {
        let mut message = skill.to_owned();
        message.append(" expects a directory path as the first argument");
        return Err(Failure::new(message));
    }
    assert(args.deep_view()[0] == args@[0]@);
    Ok(args[0].clone())
}

/// What is wrong with the directory that a skill is asked to work on.
pub open spec fn root_problem(skill: Seq<char>, root: Seq<char>, state: FileState) -> Option<
    Seq<char>,
> {
    match state {
        FileState::Missing => Some("legacy directory does not exist: "@ + root),
        FileState::File | FileState::Other => Some(skill + " expects a directory, received: "@ + root),
        FileState::Directory => None,
    }
}

pub fn check_skill_root(skill: &str, root: &str, state: FileState) -> (res: Result<(), Failure>)
    ensures
        match root_problem(skill@, root@, state) {
            Some(message) => res matches Err(error) && error@ == failure::plain(message),
            None => res is Ok,
        },
{
    match state {
        FileState::Missing => {
            let mut message = "legacy directory does not exist: ".to_owned();
            message.append(root);
            Err(Failure::new(message))
        },
        FileState::File | FileState::Other => {
            let mut message = skill.to_owned();
            message.append(" expects a directory, received: ");
            message.append(root);
            Err(Failure::new(message))
        },
        FileState::Directory => Ok(()),
    }
}

/// The path of a context file below the root.
pub open spec fn context_path(root: Seq<char>, relative: Seq<char>) -> Result<
    Seq<char>,
    Seq<Seq<char>>,
> {
    match path::normalized(relative, "context file path"@) {
        Ok(normalized) => Ok(posix::joined(root, normalized)),
        Err(error) => Err(error),
    }
}

pub fn resolve_context_file(root: &str, relative_path: &str) -> (res: Result<String, Failure>)
    ensures
        context_path(root@, relative_path@) == match res {
            Ok(full) => Ok::<Seq<char>, Seq<Seq<char>>>(full@),
            Err(error) => Err::<Seq<char>, Seq<Seq<char>>>(error@),
        },
{
    match normalize_relative_path(relative_path, "context file path") {
        Ok(normalized) => Ok(path_join(root, normalized.as_str())),
        Err(error) => Err(error),
    }
}

/// Holds what the full path of a context file leads to against what is wanted, a file. Only a
/// directory is none.
pub fn validate_relative_file(full_path: &str, relative_path: &str, state: FileState) -> (res:
    Result<(), Failure>)
    ensures
        match state {
            FileState::Missing => res matches Err(error) && error@ == failure::plain(
                "context file does not exist: "@ + full_path@,
            ),
            FileState::Directory => res matches Err(error) && error@ == failure::plain(
                "context file path points to a directory, expected a file: "@ + relative_path@,
            ),
            FileState::File | FileState::Other => res is Ok,
        },
{
    match state {
        FileState::Missing => {
            let mut message = "context file does not exist: ".to_owned();
            message.append(full_path);
            Err(Failure::new(message))
        },
        FileState::Directory => {
            let mut message =
                "context file path points to a directory, expected a file: ".to_owned();
            message.append(relative_path);
            Err(Failure::new(message))
        },
        FileState::File | FileState::Other => Ok(()),
    }
}

// ---------------------------------------------------------------------------
// Directories
// ---------------------------------------------------------------------------
/// A walk through a code base enters the entry: a file, the root itself, or a directory that
/// does not hold dependencies, build products or the history of the code.
pub open spec fn is_entered(is_dir: bool, depth: nat, name: Seq<char>) -> bool {
    let lower = compose::lowered(name);
    !is_dir || depth == 0 || (lower != "node_modules"@ && lower != "target"@ && lower != ".git"@)
}

/// A path together with its place in a listing.
#[derive(Debug)]
pub struct ListedPath {
    pub path: String,
}

#[verifier::ext_equal]
pub struct ListedModel {
    pub path: Seq<char>,
}

impl DeepView for ListedPath {
    type V = ListedModel;

    open spec fn deep_view(&self) -> ListedModel {
        ListedModel { path: self.path@ }
    }
}

/// Paths are listed in the order of their components.
impl Keyed for ListedPath {
    open spec fn key_of(model: ListedModel) -> Seq<u32> {
        ordering::texts_key(posix::components(model.path)) + ordering::text_key(model.path)
    }

    proof fn lemma_key_injective(a: ListedModel, b: ListedModel) {
        let none = Seq::<u32>::empty();
        let ka = ordering::text_key(a.path);
        let kb = ordering::text_key(b.path);
        ordering::lemma_texts_key(posix::components(a.path), posix::components(b.path), ka, kb);
        assert(ka + none =~= ka);
        assert(kb + none =~= kb);
        ordering::lemma_text_key(a.path, b.path, none, none);
    }

    fn sort_key(&self) -> (res: Vec<u32>) {
        let mut key: Vec<u32> = Vec::new();
        let parts: Vec<String> = path_components(self.path.as_str());
        push_texts_key(&mut key, parts.as_slice());
        push_text_key(&mut key, self.path.as_str());
        assert(key@ =~= Self::key_of(self.deep_view()));
        key
    }
}

/// The paths in the order in which they are read.
pub fn sort_paths(paths: Vec<ListedPath>) -> (res: Vec<ListedPath>)
    ensures
        res.deep_view() == ordering::arranged::<ListedPath>(paths.deep_view()),
{
    arrange(paths)
}

// ---------------------------------------------------------------------------
// Text
// ---------------------------------------------------------------------------
/// The text that the bytes hold: UTF-8 without a zero byte.
pub open spec fn text_in(bytes: Seq<u8>) -> Option<Seq<char>> {
    if bytes.contains(0u8) || !vstd::utf8::valid_utf8(bytes) {
        None
    } else {
        Some(vstd::utf8::decode_utf8(bytes))
    }
}

/// `String::from_utf8`: the text that the bytes encode, or none where they are no UTF-8.
#[verifier::external_body]
fn text_from_utf8(bytes: Vec<u8>) -> (res: Option<String>)
    ensures
        res is Some <==> vstd::utf8::valid_utf8(bytes@),
        res matches Some(text) ==> text@ == vstd::utf8::decode_utf8(bytes@),
{
    String::from_utf8(bytes).ok()
}

/// The text of a source file, as it stands in a context.
pub open spec fn context_block(root: Seq<char>, file: Seq<char>, contents: Seq<char>) -> Seq<char> {
    "// File: "@ + path::relative_to(root, file) + "\n"@ + contents + "\n\n"@
}

/// A file that was read: its path, and its bytes.
#[derive(Debug)]
pub struct ReadFile {
    pub path: String,
    pub bytes: Vec<u8>,
}

#[verifier::ext_equal]
pub struct ReadModel {
    pub path: Seq<char>,
    pub bytes: Seq<u8>,
}

impl DeepView for ReadFile {
    type V = ReadModel;

    open spec fn deep_view(&self) -> ReadModel {
        ReadModel { path: self.path@, bytes: self.bytes@ }
    }
}

/// The blocks of the files that hold text.
pub open spec fn context_of(root: Seq<char>, files: Seq<ReadModel>) -> Seq<char>
    decreases files.len(),
{
    if files.len() == 0 {
        Seq::empty()
    } else {
        let before = context_of(root, files.drop_last());
        match text_in(files.last().bytes) {
            Some(contents) => before + context_block(root, files.last().path, contents),
            None => before,
        }
    }
}

pub open spec fn holds_text(files: Seq<ReadModel>) -> bool {
    exists|i: int| 0 <= i < files.len() && text_in((#[trigger] files[i]).bytes) is Some
}

/// The first of the files that holds no text.
pub open spec fn first_unreadable(files: Seq<ReadModel>) -> Option<int>
    decreases files.len(),
{
    if files.len() == 0 {
        None
    } else {
        match first_unreadable(files.drop_last()) {
            Some(i) => Some(i),
            None => if text_in(files.last().bytes) is None {
                Some(files.len() - 1)
            } else {
                None
            },
        }
    }
}

proof fn lemma_first_unreadable(files: Seq<ReadModel>, i: int)
    requires
        0 <= i < files.len(),
        first_unreadable(files.take(i + 1)) == Some(i),
    ensures
        first_unreadable(files) == Some(i),
    decreases files.len() - i,
{
    if i + 1 < files.len() {
        assert(files.take(files.len() - 1).take(i + 1) =~= files.take(i + 1));
        lemma_first_unreadable(files.drop_last(), i);
    } else {
        assert(files.take(i + 1) =~= files);
    }
}

/// The text of a file is the one that its bytes encode, and it holds no zero; a file without zeros
/// that encodes a text holds it.
pub proof fn lemma_text_in(bytes: Seq<u8>)
    ensures
        text_in(bytes) matches Some(contents) ==> vstd::utf8::encode_utf8(contents) == bytes
            && !bytes.contains(0u8),
        forall|contents: Seq<char>|
            !bytes.contains(0u8) && #[trigger] vstd::utf8::encode_utf8(contents) == bytes
                ==> text_in(bytes) == Some(contents),
{
    if let Some(contents) = text_in(bytes) {
        vstd::utf8::decode_utf8_encode_utf8(bytes);
    }
    assert forall|contents: Seq<char>|
        !bytes.contains(0u8) && #[trigger] vstd::utf8::encode_utf8(contents) == bytes implies text_in(
        bytes,
    ) == Some(contents) by {
        vstd::utf8::encode_utf8_valid_utf8(contents);
        vstd::utf8::encode_utf8_decode_utf8(contents);
    }
}

/// The context of two lists of files is that of the first, followed by that of the second.
pub proof fn lemma_context_of_parts(root: Seq<char>, first: Seq<ReadModel>, second: Seq<ReadModel>)
    ensures
        context_of(root, first + second) == context_of(root, first) + context_of(root, second),
    decreases second.len(),
{
    if second.len() == 0 {
        assert(first + second =~= first);
        assert(context_of(root, first) + Seq::empty() =~= context_of(root, first));
    } else {
        let rest = second.drop_last();
        lemma_context_of_parts(root, first, rest);
        assert((first + second).drop_last() =~= first + rest);
        assert((first + second).last() == second.last());
        if let Some(contents) = text_in(second.last().bytes) {
            let block = context_block(root, second.last().path, contents);
            assert(context_of(root, first) + context_of(root, rest) + block =~= context_of(
                root,
                first,
            ) + (context_of(root, rest) + block));
        }
    }
}

/// A file that holds text stands in the context under its own header; another one adds nothing.
pub proof fn lemma_context_of_one(root: Seq<char>, file: ReadModel)
    ensures
        context_of(root, seq![file]) == match text_in(file.bytes) {
            Some(contents) => "// File: "@ + path::relative_to(root, file.path) + "\n"@ + contents
                + "\n\n"@,
            None => Seq::empty(),
        },
{
    assert(seq![file].drop_last() =~= Seq::<ReadModel>::empty());
    assert(context_of(root, Seq::<ReadModel>::empty()) == Seq::<char>::empty());
    if let Some(contents) = text_in(file.bytes) {
        let block = context_block(root, file.path, contents);
        assert(Seq::<char>::empty() + block =~= block);
    }
}

/// The length of what each file adds, summed up.
pub open spec fn added_len(root: Seq<char>, files: Seq<ReadModel>) -> nat
    decreases files.len(),
{
    if files.len() == 0 {
        0
    } else {
        added_len(root, files.drop_first()) + match text_in(files[0].bytes) {
            Some(contents) => 12 + path::relative_to(root, files[0].path).len() + contents.len(),
            None => 0,
        }
    }
}

/// Every file that holds text stands in the context, behind those before it and before those
/// behind it, and nothing else stands there: the context is as long as the blocks of the files.
pub proof fn lemma_context_holds_file(root: Seq<char>, files: Seq<ReadModel>, i: int)
    requires
        0 <= i < files.len(),
        text_in(files[i].bytes) is Some,
    ensures
        context_of(root, files) == context_of(root, files.take(i)) + ("// File: "@
            + path::relative_to(root, files[i].path) + "\n"@ + text_in(files[i].bytes)->0
            + "\n\n"@) + context_of(root, files.skip(i + 1)),
        context_of(root, files).len() == added_len(root, files),
{
    let one = seq![files[i]];
    lemma_context_len(root, files);
    lemma_context_of_one(root, files[i]);
    lemma_context_of_parts(root, files.take(i), one);
    lemma_context_of_parts(root, files.take(i) + one, files.skip(i + 1));
    assert(files.take(i) + one + files.skip(i + 1) =~= files);
}

proof fn lemma_context_len(root: Seq<char>, files: Seq<ReadModel>)
    ensures
        context_of(root, files).len() == added_len(root, files),
    decreases files.len(),
{
    if files.len() > 0 {
        let one = seq![files[0]];
        let rest = files.drop_first();
        reveal_strlit("// File: ");
        reveal_strlit("\n");
        reveal_strlit("\n\n");
        lemma_context_len(root, rest);
        lemma_context_of_one(root, files[0]);
        lemma_context_of_parts(root, one, rest);
        assert(one + rest =~= files);
    }
}

/// Selected files are refused because of the first that holds no text, and only because of that.
pub proof fn lemma_first_refused(files: Seq<ReadModel>)
    ensures
        match first_unreadable(files) {
            Some(i) => 0 <= i < files.len() && text_in(files[i].bytes) is None && forall|j: int|
                0 <= j < i ==> text_in((#[trigger] files[j]).bytes) is Some,
            None => forall|j: int|
                0 <= j < files.len() ==> text_in((#[trigger] files[j]).bytes) is Some,
        },
    decreases files.len(),
{
    if files.len() > 0 {
        let rest = files.drop_last();
        lemma_first_refused(rest);
        match first_unreadable(rest) {
            Some(i) => {
                assert(rest[i] == files[i]);
                assert forall|j: int| 0 <= j < i implies text_in((#[trigger] files[j]).bytes)
                    is Some by {
                    assert(rest[j] == files[j]);
                }
            },
            None => {
                assert forall|j: int| 0 <= j < rest.len() implies text_in(
                    (#[trigger] files[j]).bytes,
                ) is Some by {
                    assert(rest[j] == files[j]);
                }
            },
        }
    }
}

impl FileIOSkill {
    pub fn should_descend(is_dir: bool, depth: usize, name: &str) -> (res: bool)
        ensures
            res == is_entered(is_dir, depth as nat, name@),
    {
        if !is_dir || depth == 0 {
            return true;
        }
        let lower = to_lower(name);
        !same(lower.as_str(), "node_modules") && !same(lower.as_str(), "target") && !same(
            lower.as_str(),
            ".git",
        )
    }

    /// The text that the bytes of a file hold, if they hold text.
    pub fn read_text_file(bytes: &Vec<u8>) -> (res: Option<String>)
        ensures
            res.deep_view() == text_in(bytes@),
    {
        let mut copy: Vec<u8> = Vec::new();
        let mut i: usize = 0;
        while i < bytes.len()
            invariant
                i <= bytes.len(),
                copy@ == bytes@.take(i as int),
                forall|j: int| 0 <= j < i ==> bytes@[j] != 0,
            decreases bytes.len() - i,
        {
            if bytes[i] == 0 {
                assert(bytes@.contains(bytes@[i as int]));
                return None;
            }
            copy.push(bytes[i]);
            assert(copy@ =~= bytes@.take(i as int + 1));
            i += 1;
        }
        assert(copy@ =~= bytes@);
        assert(!bytes@.contains(0u8));
        text_from_utf8(copy)
    }

    pub fn normalize_path(root: &str, path: &str) -> (res: String)
        ensures
            res@ == path::relative_to(root@, path@),
    {
        relative_path_from_root(root, path)
    }

    fn append_block(root: &str, path: &str, contents: &str, output: &mut String)
        ensures
            final(output)@ == old(output)@ + context_block(root@, path@, contents@),
    {
        let ghost start = output@;
        output.append("// File: ");
        output.append(Self::normalize_path(root, path).as_str());
        output.append("\n");
        output.append(contents);
        output.append("\n\n");
        assert(output@ =~= start + context_block(root@, path@, contents@));
    }

    /// The context of a directory: the files that hold text, in the order given.
    pub fn collect_directory(root: &str, files: &Vec<ReadFile>) -> (res: Result<String, Failure>)
        ensures
            if holds_text(files.deep_view()) {
                res matches Ok(context) && context@ == context_of(root@, files.deep_view())
            } else {
                res matches Err(error) && error@ == failure::plain(
                    "no readable text files found in legacy directory "@ + root@,
                )
            },
    {
        let ghost all = files.deep_view();
        let mut output = String::new();
        let mut wrote_any: bool = false;
        let mut i: usize = 0;
        assert(all.take(0) =~= Seq::empty());
        while i < files.len()
            invariant
                i <= files.len(),
                all == files.deep_view(),
                output@ == context_of(root@, all.take(i as int)),
                wrote_any == exists|j: int| 0 <= j < i && text_in((#[trigger] all[j]).bytes)
                    is Some,
            decreases files.len() - i,
        {
            proof {
                assert(all.take(i as int + 1).drop_last() == all.take(i as int));
                assert(all.take(i as int + 1).last() == all[i as int]);
                assert(all[i as int] == files@[i as int].deep_view());
            }
            if let Some(contents) = Self::read_text_file(&files[i].bytes) {
                Self::append_block(root, files[i].path.as_str(), contents.as_str(), &mut output);
                wrote_any = true;
                assert(text_in(all[i as int].bytes) is Some);
            }
            i += 1;
        }
        assert(all.take(all.len() as int) == all);
        if !wrote_any {
            let mut message = "no readable text files found in legacy directory ".to_owned();
            message.append(root);
            return Err(Failure::new(message));
        }
        Ok(output)
    }

    /// The context of the files that were selected, all of which have to hold text. The second
    /// list holds the relative path by which each of them was selected.
    pub fn collect_selected_files(
        root: &str,
        files: &Vec<ReadFile>,
        relative_paths: &Vec<String>,
    ) -> (res: Result<String, Failure>)
        requires
            files@.len() == relative_paths@.len(),
        ensures
            match first_unreadable(files.deep_view()) {
                Some(i) => res matches Err(error) && error@ == failure::plain(
                    "context file is not a readable text file: "@
                        + relative_paths.deep_view()[i],
                ),
                None => if files@.len() == 0 {
                    res matches Err(error) && error@ == failure::plain(
                        "no readable context files were selected from "@ + root@,
                    )
                } else {
                    res matches Ok(context) && context@ == context_of(root@, files.deep_view())
                },
            },
    {
        let ghost all = files.deep_view();
        let mut output = String::new();
        let mut i: usize = 0;
        assert(all.take(0) =~= Seq::empty());
        while i < files.len()
            invariant
                i <= files.len(),
                files@.len() == relative_paths@.len(),
                all == files.deep_view(),
                output@ == context_of(root@, all.take(i as int)),
                first_unreadable(all.take(i as int)) is None,
            decreases files.len() - i,
        {
            proof {
                assert(all.take(i as int + 1).drop_last() == all.take(i as int));
                assert(all.take(i as int + 1).last() == all[i as int]);
                assert(all[i as int] == files@[i as int].deep_view());
            }
            match Self::read_text_file(&files[i].bytes) {
                Some(contents) => {
                    Self::append_block(
                        root,
                        files[i].path.as_str(),
                        contents.as_str(),
                        &mut output,
                    );
                },
                None => {
                    proof {
                        lemma_first_unreadable(all, i as int);
                        assert(relative_paths.deep_view()[i as int] == relative_paths@[i as int]@);
                    }
                    let mut message = "context file is not a readable text file: ".to_owned();
                    message.append(relative_paths[i].as_str());
                    return Err(Failure::new(message));
                },
            }
            i += 1;
        }
        assert(all.take(all.len() as int) == all);
        if files.len() == 0 {
            let mut message = "no readable context files were selected from ".to_owned();
            message.append(root);
            return Err(Failure::new(message));
        }
        Ok(output)
    }
}

// ---------------------------------------------------------------------------
// Writing
// ---------------------------------------------------------------------------
/// A file that is to be written: the directory that has to be there first, the path, and the
/// contents.
#[derive(Debug)]
pub struct WritePlan {
    pub parent: Option<String>,
    pub path: String,
    pub contents: String,
}

/// The directory that holds the path, unless that is the current one.
pub open spec fn directory_to_create(target: Seq<char>) -> Option<Seq<char>> {
    match posix::parent(target) {
        Some(parent) => if parent.len() == 0 {
            None
        } else {
            Some(parent)
        },
        None => None,
    }
}

impl FileWriteSkill {
    /// Reads the arguments: the target path, and what is written there.
    pub fn plan(args: &[String]) -> (res: Result<WritePlan, Failure>)
        ensures
            match res {
                Ok(plan) => args@.len() >= 2 && plan.path@ == args.deep_view()[0]
                    && plan.contents@ == args.deep_view()[1] && plan.parent.deep_view()
                    == directory_to_create(args.deep_view()[0]),
                Err(error) => if args@.len() == 0 {
                    error@ == failure::plain(
                        "FileWriteSkill expects the target path as the first argument"@,
                    )
                } else {
                    args@.len() == 1 && error@ == failure::plain(
                        "FileWriteSkill expects the file content as the second argument"@,
                    )
                },
            },
    {
        if args.len() == 0 {
            return Err(
                Failure::new(
                    "FileWriteSkill expects the target path as the first argument".to_owned(),
                ),
            );
        }
        if args.len() == 1 {
            return Err(
                Failure::new(
                    "FileWriteSkill expects the file content as the second argument".to_owned(),
                ),
            );
        }
        assert(args.deep_view()[0] == args@[0]@);
        assert(args.deep_view()[1] == args@[1]@);
        let parent: Option<String> = match path_parent(args[0].as_str()) {
            Some(parent) => if parent.as_str().is_empty() {
                None
            } else {
                Some(parent)
            },
            None => None,
        };
        Ok(WritePlan { parent, path: args[0].clone(), contents: args[1].clone() })
    }
}

/// A context file with a plain path stands below the root under that path.
pub proof fn lemma_context_path(root: Seq<char>, names: Seq<Seq<char>>)
    requires
        names.len() > 0,
        forall|i: int| 0 <= i < names.len() ==> path::is_portable(#[trigger] names[i]),
        text::trimmed(compose::join(names, seq!['/'])) == compose::join(names, seq!['/']),
        !path::has_windows_prefix(compose::join(names, seq!['/'])),
    ensures
        context_path(root, compose::join(names, "/"@)) == Ok::<Seq<char>, Seq<Seq<char>>>(
            posix::joined(root, compose::join(names, "/"@)),
        ),
{
    reveal_strlit("/");
    assert("/"@ =~= seq!['/']);
    path::lemma_normalized_names(names, '/', "context file path"@);
}

/// A walk enters every file and the root; other directories it enters by their names alone, in
/// which capital and small letters are the same.
pub proof fn lemma_entered(depth: nat, name: Seq<char>, other: Seq<char>)
    ensures
        is_entered(false, depth, name),
        is_entered(true, 0, name),
        compose::lowered(name) == compose::lowered(other) ==> is_entered(true, depth, name)
            == is_entered(true, depth, other),
        depth > 0 ==> !is_entered(true, depth, "node_modules"@) && !is_entered(
            true,
            depth,
            "target"@,
        ) && !is_entered(true, depth, ".git"@),
        name.len() != 12 && name.len() != 6 && name.len() != 4 ==> is_entered(true, depth, name),
{
    reveal_strlit("node_modules");
    reveal_strlit("target");
    reveal_strlit(".git");
    assert("node_modules"@.len() == 12 && "target"@.len() == 6 && ".git"@.len() == 4);
    compose::lemma_lowered("node_modules"@);
    compose::lemma_lowered("target"@);
    compose::lemma_lowered(".git"@);
    compose::lemma_lowered(name);
    assert forall|i: int| 0 <= i < 12 implies !('A' <= #[trigger] "node_modules"@[i] <= 'Z') by {}
    assert forall|i: int| 0 <= i < 6 implies !('A' <= #[trigger] "target"@[i] <= 'Z') by {}
    assert forall|i: int| 0 <= i < 4 implies !('A' <= #[trigger] ".git"@[i] <= 'Z') by {}
}

/// A skill works on a directory and on nothing else; it is the first of its arguments.
pub proof fn lemma_skill_root(skill: Seq<char>, args: Seq<Seq<char>>, state: FileState)
    ensures
        root_argument(skill, args) is Ok <==> args.len() > 0,
        args.len() > 0 ==> root_argument(skill, args) == Ok::<Seq<char>, Seq<Seq<char>>>(args[0]),
        args.len() > 0 ==> (root_problem(skill, args[0], state) is None <==> state is Directory),
{
}

} // verus!
