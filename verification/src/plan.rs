//! What a run does around the canvas: which folders it takes, where their
//! pages go, what the pages are called, and what it reports.

use vstd::prelude::*;
use vstd::string::StringExecFns;
use crate::files::{has_image_file, is_image_name, sort_naturally};
use crate::models::StitchSettings;
use crate::natural::naturally_sorted;
use crate::text::{decimal, push_char, push_decimal, texts, two_digits};

verus! {

/// The name of the folder that receives the pages of the folder `name`.
pub fn stitched_name(name: &str) -> (stitched: String)
    ensures
        stitched@ == name@ + " [Stitched]"@,
{
    let mut stitched = name.to_owned();
    stitched.append(" [Stitched]");
    stitched
}

/// Where the pages of a folder go.
#[derive(Debug)]
pub enum OutputPlace {
    /// Into a folder of this name beside the input folder.
    Sibling(String),
    /// Into a folder of this name below the configured output folder.
    Below(String),
    /// Into the configured output folder itself.
    Configured,
}

/// Decides where the pages of the input folder `name` go. Without a
/// configured output folder they go beside the input folder, into
/// `<name> [Stitched]`. With one, a run over many folders gives each its
/// own `<name> [Stitched]` below it, and a run over one folder writes into
/// the configured folder itself.
pub fn output_place(settings: &StitchSettings, name: &str) -> (place: OutputPlace)
    ensures
        match place {
            OutputPlace::Sibling(folder) => settings.output_path@.len() == 0 && folder@ == name@
                + " [Stitched]"@,
            OutputPlace::Below(folder) => settings.output_path@.len() > 0 && settings.batch_mode
                && folder@ == name@ + " [Stitched]"@,
            OutputPlace::Configured => settings.output_path@.len() > 0 && !settings.batch_mode,
        },
{
    if settings.output_path.as_str().unicode_len() == 0 {
        OutputPlace::Sibling(stitched_name(name))
    } else if settings.batch_mode {
        OutputPlace::Below(stitched_name(name))
    } else {
        OutputPlace::Configured
    }
}

/// The file name of a page: its number in at least two digits, then the
/// extension as it is configured (with its dot).
pub open spec fn page_file_name_spec(number: u32, extension: Seq<char>) -> Seq<char> {
    two_digits(number as nat) + extension
}

/// Names the file of a page. Pages are numbered from 1.
pub fn page_file_name(number: u32, extension: &str) -> (name: String)
    ensures
        name@ == page_file_name_spec(number, extension@),
{
    let mut name = String::new();
    if number < 10 {
        push_char(&mut name, '0');
    }
    push_decimal(&mut name, number as u64);
    proof {
        if number < 10 {
            assert(Seq::<char>::empty().push('0') + decimal(number as nat) =~= two_digits(
                number as nat,
            ));
        } else {
            assert(Seq::<char>::empty() + decimal(number as nat) =~= two_digits(number as nat));
        }
    }
    name.append(extension);
    name
}

/// What is reported before a file is taken on: `Processing <file>/<files>`,
/// and before it, where the run has more than one folder,
/// `[Folder <folder>/<folders>] `. Files and folders are counted from 1.
pub open spec fn status_line_spec(folder: u64, folders: u64, file: u64, files: u64) -> Seq<char> {
    let prefix = if folders > 1 {
        "[Folder "@ + decimal(folder as nat) + "/"@ + decimal(folders as nat) + "] "@
    } else {
        Seq::empty()
    };
    prefix + "Processing "@ + decimal(file as nat) + "/"@ + decimal(files as nat)
}

/// Words the report for one file.
pub fn status_line(folder: u64, folders: u64, file: u64, files: u64) -> (line: String)
    ensures
        line@ == status_line_spec(folder, folders, file, files),
{
    let mut line = String::new();
    if folders > 1 {
        line.append("[Folder ");
        push_decimal(&mut line, folder);
        line.append("/");
        push_decimal(&mut line, folders);
        line.append("] ");
    }
    let ghost prefix = line@;
    proof {
        if folders > 1 {
            assert(prefix =~= "[Folder "@ + decimal(folder as nat) + "/"@ + decimal(
                folders as nat,
            ) + "] "@);
        } else {
            assert(prefix =~= Seq::<char>::empty());
        }
    }
    line.append("Processing ");
    push_decimal(&mut line, file);
    line.append("/");
    push_decimal(&mut line, files);
    line
}

/// A folder below the input folder, with the names of its entries.
#[derive(Debug)]
pub struct Subfolder {
    pub name: String,
    pub entries: Vec<String>,
}

/// The folder holds at least one image file.
pub open spec fn holds_image(folder: Subfolder) -> bool {
    exists|i: int| 0 <= i < folder.entries@.len() && is_image_name(#[trigger] folder.entries@[i]@)
}

/// The test that keeps the folders with an image file.
pub open spec fn with_images() -> spec_fn(Subfolder) -> bool {
    |folder: Subfolder| holds_image(folder)
}

/// The names of the folders that hold an image file, in the order given.
pub open spec fn qualifying(subfolders: Seq<Subfolder>) -> Seq<Seq<char>> {
    subfolders.filter(with_images()).map_values(|folder: Subfolder| folder.name@)
}

/// The folders that a run goes through.
#[derive(Debug)]
pub enum RunFolders {
    /// The input folder itself, and nothing else.
    Root,
    /// The folders of these names below the input folder, in this order.
    Subfolders(Vec<String>),
}

/// Chooses the folders of a run. A run over one folder takes the input
/// folder itself. A run over many folders takes those of the given folders
/// that hold at least one image file, in the order in which a person reads
/// their names; if none of them does, it takes no folder at all.
pub fn folders_to_process(batch_mode: bool, subfolders: &Vec<Subfolder>) -> (folders: RunFolders)
    ensures
        match folders {
            RunFolders::Root => !batch_mode,
            RunFolders::Subfolders(names) => {
                &&& batch_mode
                &&& texts(names@).to_multiset() == qualifying(subfolders@).to_multiset()
                &&& naturally_sorted(texts(names@))
            },
        },
{
    if !batch_mode {
        return RunFolders::Root;
    }
    let mut kept: Vec<String> = Vec::new();
    let mut i: usize = 0;
    proof {
        reveal(Seq::filter);
        assert(subfolders@.take(0) =~= Seq::<Subfolder>::empty());
        assert(texts(kept@) =~= qualifying(subfolders@.take(0)));
    }
    while i < subfolders.len()
        invariant
            i <= subfolders@.len(),
            texts(kept@) == qualifying(subfolders@.take(i as int)),
        decreases subfolders@.len() - i,
    {
        let ghost before = texts(kept@);
        let ghost part = subfolders@.take(i as int).filter(with_images());
        proof {
            reveal(Seq::filter);
            assert(subfolders@.take(i + 1).drop_last() =~= subfolders@.take(i as int));
            assert(subfolders@.take(i + 1).last() == subfolders@[i as int]);
        }
        if has_image_file(&subfolders[i].entries) {
            kept.push(subfolders[i].name.clone());
            proof {
                assert(subfolders@.take(i + 1).filter(with_images()) == part.push(
                    subfolders@[i as int],
                ));
                assert(texts(kept@) =~= before.push(subfolders@[i as int].name@));
                assert(qualifying(subfolders@.take(i + 1)) =~= before.push(
                    subfolders@[i as int].name@,
                ));
            }
        } else {
            proof {
                assert(subfolders@.take(i + 1).filter(with_images()) == part);
            }
        }
        i = i + 1;
    }
    assert(subfolders@.take(i as int) =~= subfolders@);
    RunFolders::Subfolders(sort_naturally(&kept))
}

} // verus!
