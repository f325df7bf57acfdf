//! The terminal configuration: one active file and, beside it, a variant file
//! for each theme. A change of theme moves files; it never edits one.

use crate::theme::Theme;
use vstd::prelude::*;

verus! {

/// One of the three files of the terminal's configuration directory.
#[derive(Clone, Copy, Debug, PartialEq, Eq, Structural)]
pub enum TerminalFile {
    /// The file that the terminal reads.
    Active,
    /// The variant kept under the light theme's name.
    LightVariant,
    /// The variant kept under the dark theme's name.
    DarkVariant,
}

impl TerminalFile {
    /// The file's path below the user's configuration directory.
    pub open spec fn spec_relative_path(self) -> Seq<char> {
        match self {
            TerminalFile::Active => "alacritty/alacritty.toml"@,
            TerminalFile::LightVariant => "alacritty/alacritty.light.toml"@,
            TerminalFile::DarkVariant => "alacritty/alacritty.dark.toml"@,
        }
    }

    /// The file's path below the user's configuration directory.
    pub fn relative_path(self) -> (path: &'static str)
        ensures
            path@ == self.spec_relative_path(),
    {
        match self {
            TerminalFile::Active => "alacritty/alacritty.toml",
            TerminalFile::LightVariant => "alacritty/alacritty.light.toml",
            TerminalFile::DarkVariant => "alacritty/alacritty.dark.toml",
        }
    }
}

/// The three files have three different paths.
pub proof fn lemma_paths_differ(a: TerminalFile, b: TerminalFile)
    requires
        a != b,
    ensures
        a.spec_relative_path() != b.spec_relative_path(),
{
    reveal_strlit("alacritty/alacritty.toml");
    reveal_strlit("alacritty/alacritty.light.toml");
    reveal_strlit("alacritty/alacritty.dark.toml");
    assert(TerminalFile::Active.spec_relative_path().len() == 24);
    assert(TerminalFile::LightVariant.spec_relative_path().len() == 30);
    assert(TerminalFile::DarkVariant.spec_relative_path().len() == 29);
}

/// The variant that a change to `theme` makes the active file.
pub open spec fn spec_promoted_variant(theme: Theme) -> TerminalFile {
    match theme {
        Theme::Light => TerminalFile::DarkVariant,
        Theme::Dark => TerminalFile::LightVariant,
    }
}

/// The variant that a change to `theme` makes the active file.
#[verifier::when_used_as_spec(spec_promoted_variant)]
pub fn promoted_variant(theme: Theme) -> (file: TerminalFile)
    ensures
        file == spec_promoted_variant(theme),
{
    match theme {
        Theme::Light => TerminalFile::DarkVariant,
        Theme::Dark => TerminalFile::LightVariant,
    }
}

/// The variant under whose name a change to `theme` puts the file that was
/// active.
pub open spec fn spec_archive_variant(theme: Theme) -> TerminalFile {
    match theme {
        Theme::Light => TerminalFile::LightVariant,
        Theme::Dark => TerminalFile::DarkVariant,
    }
}

/// The variant under whose name a change to `theme` puts the file that was
/// active.
#[verifier::when_used_as_spec(spec_archive_variant)]
pub fn archive_variant(theme: Theme) -> (file: TerminalFile)
    ensures
        file == spec_archive_variant(theme),
{
    match theme {
        Theme::Light => TerminalFile::LightVariant,
        Theme::Dark => TerminalFile::DarkVariant,
    }
}

/// Moving one file to another's path.
#[derive(Clone, Copy, Debug, PartialEq, Eq, Structural)]
pub struct Rename {
    pub source: TerminalFile,
    pub target: TerminalFile,
}

/// The renames that bring the directory to `theme`, in the order in which
/// they are made: none where the promoted variant does not exist; else the
/// active file to the archive variant, then the promoted variant to the
/// active file.
pub open spec fn spec_swap_steps(theme: Theme, promoted_exists: bool) -> Seq<Rename> {
    if promoted_exists {
        seq![
            Rename { source: TerminalFile::Active, target: archive_variant(theme) },
            Rename { source: promoted_variant(theme), target: TerminalFile::Active },
        ]
    } else {
        Seq::empty()
    }
}

/// The renames that bring the directory to `theme`, given whether the
/// promoted variant exists.
pub fn swap_steps(theme: Theme, promoted_exists: bool) -> (steps: Vec<Rename>)
    ensures
        steps@ == spec_swap_steps(theme, promoted_exists),
{
    let mut steps: Vec<Rename> = Vec::new();
    if promoted_exists {
        steps.push(Rename { source: TerminalFile::Active, target: archive_variant(theme) });
        steps.push(Rename { source: promoted_variant(theme), target: TerminalFile::Active });
    }
    assert(steps@ =~= spec_swap_steps(theme, promoted_exists));
    steps
}

/// What the routine did to the directory.
#[derive(Clone, Copy, Debug, PartialEq, Eq, Structural)]
pub enum Outcome {
    /// The promoted variant has become the active file.
    Swapped,
    /// The promoted variant does not exist: nothing was renamed.
    NothingToDo,
}

/// A rename that failed because its source does not exist.
#[derive(Clone, Copy, Debug, PartialEq, Eq, Structural)]
pub struct RenameError {
    pub step: Rename,
}

/// What the directory holds: for each of the three files its text, where the
/// file exists.
pub struct Layout {
    pub active: Option<Seq<char>>,
    pub light_variant: Option<Seq<char>>,
    pub dark_variant: Option<Seq<char>>,
}

impl Layout {
    /// The text of `file`, where it exists.
    pub open spec fn file(self, file: TerminalFile) -> Option<Seq<char>> {
        match file {
            TerminalFile::Active => self.active,
            TerminalFile::LightVariant => self.light_variant,
            TerminalFile::DarkVariant => self.dark_variant,
        }
    }

    /// This layout with `file` holding `text`, or absent where `text` is
    /// `None`.
    pub open spec fn with_file(self, file: TerminalFile, text: Option<Seq<char>>) -> Layout {
        match file {
            TerminalFile::Active => Layout { active: text, ..self },
            TerminalFile::LightVariant => Layout { light_variant: text, ..self },
            TerminalFile::DarkVariant => Layout { dark_variant: text, ..self },
        }
    }

    /// The layout after `step`, or `None` where its source does not exist.
    /// The source is gone afterwards and the target holds its text, in place
    /// of whatever the target held.
    pub open spec fn renamed(self, step: Rename) -> Option<Layout> {
        match self.file(step.source) {
            Some(text) => Some(
                self.with_file(step.source, None).with_file(step.target, Some(text)),
            ),
            None => None,
        }
    }

    /// The layout after the renames of `steps`, made in order up to the first
    /// one that fails, and that one, if any.
    pub open spec fn performed(self, steps: Seq<Rename>) -> (Layout, Option<Rename>)
        decreases steps.len(),
    {
        if steps.len() == 0 {
            (self, None)
        } else {
            match self.renamed(steps[0]) {
                Some(next) => next.performed(steps.skip(1)),
                None => (self, Some(steps[0])),
            }
        }
    }

    /// The layout after the routine for `theme`, and how the routine ends.
    /// Where the promoted variant does not exist, nothing changes. Where it
    /// exists and the active file does not, the first rename fails and
    /// nothing changes. Otherwise the archive variant holds what was active,
    /// the active file holds what the promoted variant held, and the promoted
    /// variant is gone.
    pub open spec fn applied(self, theme: Theme) -> (Layout, Result<Outcome, RenameError>) {
        let promoted = promoted_variant(theme);
        let archive = archive_variant(theme);
        if self.file(promoted) is None {
            (self, Ok(Outcome::NothingToDo))
        } else if self.file(TerminalFile::Active) is None {
            (
                self,
                Err(RenameError { step: Rename { source: TerminalFile::Active, target: archive } }),
            )
        } else {
            (
                self.with_file(archive, self.file(TerminalFile::Active)).with_file(
                    TerminalFile::Active,
                    self.file(promoted),
                ).with_file(promoted, None),
                Ok(Outcome::Swapped),
            )
        }
    }
}

/// The terminal's configuration directory, held in memory: for each of the
/// three files its text, where the file exists.
#[derive(Debug, PartialEq, Eq)]
pub struct TerminalDir {
    pub active: Option<String>,
    pub light_variant: Option<String>,
    pub dark_variant: Option<String>,
}

impl View for TerminalDir {
    type V = Layout;

    open spec fn view(&self) -> Layout {
        Layout {
            active: self.active.deep_view(),
            light_variant: self.light_variant.deep_view(),
            dark_variant: self.dark_variant.deep_view(),
        }
    }
}

impl Clone for TerminalDir {
    fn clone(&self) -> (copy: Self)
        ensures
            copy@ == self@,
    {
        TerminalDir {
            active: self.active.clone(),
            light_variant: self.light_variant.clone(),
            dark_variant: self.dark_variant.clone(),
        }
    }
}

impl TerminalDir {
    /// Whether `file` exists.
    pub fn has(&self, file: TerminalFile) -> (present: bool)
        ensures
            present == self@.file(file) is Some,
    {
        match file {
            TerminalFile::Active => self.active.is_some(),
            TerminalFile::LightVariant => self.light_variant.is_some(),
            TerminalFile::DarkVariant => self.dark_variant.is_some(),
        }
    }

    /// Takes `file` out of the directory and returns what it held.
    fn take(&mut self, file: TerminalFile) -> (text: Option<String>)
        ensures
            text.deep_view() == old(self)@.file(file),
            final(self)@ == old(self)@.with_file(file, None),
    {
        match file {
            TerminalFile::Active => self.active.take(),
            TerminalFile::LightVariant => self.light_variant.take(),
            TerminalFile::DarkVariant => self.dark_variant.take(),
        }
    }

    /// Makes `file` hold `text`.
    fn put(&mut self, file: TerminalFile, text: String)
        ensures
            final(self)@ == old(self)@.with_file(file, Some(text@)),
    {
        match file {
            TerminalFile::Active => {
                self.active = Some(text);
            },
            TerminalFile::LightVariant => {
                self.light_variant = Some(text);
            },
            TerminalFile::DarkVariant => {
                self.dark_variant = Some(text);
            },
        }
    }

    /// Renames `step.source` to `step.target`. Fails, and changes nothing,
    /// where the source does not exist.
    pub fn rename(&mut self, step: Rename) -> (done: Result<(), RenameError>)
        ensures
            match old(self)@.renamed(step) {
                Some(next) => done is Ok && final(self)@ == next,
                None => done == Err::<(), RenameError>(RenameError { step }) && final(self)@ == old(
                    self,
                )@,
            },
    {
        match self.take(step.source) {
            Some(text) => {
                self.put(step.target, text);
                Ok(())
            },
            None => Err(RenameError { step }),
        }
    }

    /// Makes the renames of `steps` in order and stops at the first that
    /// fails.
    pub fn perform(&mut self, steps: &Vec<Rename>) -> (done: Result<(), RenameError>)
        ensures
            final(self)@ == old(self)@.performed(steps@).0,
            match old(self)@.performed(steps@).1 {
                Some(step) => done == Err::<(), RenameError>(RenameError { step }),
                None => done is Ok,
            },
    {
        let mut i: usize = 0;
        assert(steps@.skip(0) =~= steps@);
        while i < steps.len()
            invariant
                i <= steps@.len(),
                self@.performed(steps@.skip(i as int)) == old(self)@.performed(steps@),
            decreases steps@.len() - i,
        {
            assert(steps@.skip(i as int).skip(1) =~= steps@.skip(i + 1));
            match self.rename(steps[i]) {
                Ok(()) => {},
                Err(failure) => {
                    return Err(failure);
                },
            }
            i += 1;
        }
        Ok(())
    }

    /// Brings the directory to `theme`: where the promoted variant exists,
    /// the active file is renamed to the archive variant and the promoted
    /// variant to the active file.
    pub fn apply(&mut self, theme: Theme) -> (outcome: Result<Outcome, RenameError>)
        ensures
            final(self)@ == old(self)@.applied(theme).0,
            outcome == old(self)@.applied(theme).1,
            outcome is Ok ==> final(self)@.file(promoted_variant(theme)) is None,
            outcome == Ok::<Outcome, RenameError>(Outcome::Swapped) ==> {
                &&& final(self)@.file(TerminalFile::Active) == old(self)@.file(
                    promoted_variant(theme),
                )
                &&& final(self)@.file(archive_variant(theme)) == old(self)@.file(
                    TerminalFile::Active,
                )
            },
            outcome != Ok::<Outcome, RenameError>(Outcome::Swapped) ==> final(self)@ == old(self)@,
    {
        let present = self.has(promoted_variant(theme));
        let steps = swap_steps(theme, present);
        proof {
            lemma_steps_apply(self@, theme);
        }
        match self.perform(&steps) {
            Ok(()) => Ok(
                if present {
                    Outcome::Swapped
                } else {
                    Outcome::NothingToDo
                },
            ),
            Err(failure) => Err(failure),
        }
    }
}

/// Making the renames of `swap_steps` in order is the routine: it leaves the
/// layout that `applied` describes, and it fails where `applied` fails, at the
/// same rename.
pub proof fn lemma_steps_apply(layout: Layout, theme: Theme)
    ensures
        ({
            let steps = spec_swap_steps(theme, layout.file(promoted_variant(theme)) is Some);
            &&& layout.performed(steps).0 == layout.applied(theme).0
            &&& match layout.performed(steps).1 {
                Some(step) => layout.applied(theme).1 == Err::<Outcome, RenameError>(
                    RenameError { step },
                ),
                None => layout.applied(theme).1 is Ok,
            }
        }),
{
    let steps = spec_swap_steps(theme, layout.file(promoted_variant(theme)) is Some);
    reveal_with_fuel(Layout::performed, 3);
    if steps.len() > 0 {
        assert(steps.skip(1)[0] == steps[1]);
        assert(steps.skip(1).skip(1).len() == 0);
    }
}

/// After a swap the promoted variant is gone, having become the active
/// file, and the archive variant holds what was active before.
pub proof fn lemma_swap_moves_files(layout: Layout, theme: Theme)
    requires
        layout.applied(theme).1 == Ok::<Outcome, RenameError>(Outcome::Swapped),
    ensures
        layout.applied(theme).0.file(promoted_variant(theme)) is None,
        layout.applied(theme).0.file(TerminalFile::Active) == layout.file(promoted_variant(theme)),
        layout.applied(theme).0.file(archive_variant(theme)) == layout.file(TerminalFile::Active),
        layout.file(promoted_variant(theme)) is Some,
        layout.file(TerminalFile::Active) is Some,
{
}

/// The routine settles: run again for the same theme it changes nothing, and
/// after a run that succeeded it finds the promoted variant absent and has
/// nothing to do.
pub proof fn lemma_apply_idempotent(layout: Layout, theme: Theme)
    ensures
        layout.applied(theme).0.applied(theme).0 == layout.applied(theme).0,
        layout.applied(theme).1 is Ok ==> {
            &&& layout.applied(theme).0.file(promoted_variant(theme)) is None
            &&& layout.applied(theme).0.applied(theme).1 == Ok::<Outcome, RenameError>(
                Outcome::NothingToDo,
            )
        },
{
}

/// Where the routine for `theme` and then the routine for the other theme
/// both succeed, the directory is afterwards as it was before exactly where
/// the archive variant of `theme` did not exist to begin with.
pub proof fn lemma_apply_round_trip(layout: Layout, theme: Theme)
    requires
        layout.applied(theme).1 is Ok,
        layout.applied(theme).0.applied(theme.opposite()).1 is Ok,
    ensures
        layout.applied(theme).0.applied(theme.opposite()).0 == layout <==> layout.file(
            archive_variant(theme),
        ) is None,
{
}

/// The two renames are not one step. After the first alone there is no
/// active file, and both variants exist.
pub proof fn lemma_interrupted_swap(layout: Layout, theme: Theme)
    requires
        layout.file(promoted_variant(theme)) is Some,
        layout.file(TerminalFile::Active) is Some,
    ensures
        layout.renamed(spec_swap_steps(theme, true)[0]) matches Some(half) && {
            &&& half.file(TerminalFile::Active) is None
            &&& half.file(TerminalFile::LightVariant) is Some
            &&& half.file(TerminalFile::DarkVariant) is Some
        },
{
}

} // verus!
