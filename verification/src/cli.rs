//! The options of an invocation, once the command line is read.

use vstd::prelude::*;
use vstd::string::StringExecFns;

verus! {

pub struct Options {
    /// Where the descriptor is.
    pub config_file: String,
    /// The one group to apply, if only one is wanted.
    pub only_group: Option<String>,
    /// The one group to leave out, if one is to be left out.
    pub except_group: Option<String>,
    /// How much to say: 0 for errors only, one more for each level.
    pub verbose: usize,
    /// Say nothing at all.
    pub quiet: bool,
}

pub ghost struct OptionsView {
    pub config_file: Seq<char>,
    pub only_group: Option<Seq<char>>,
    pub except_group: Option<Seq<char>>,
    pub verbose: usize,
    pub quiet: bool,
}

impl View for Options {
    type V = OptionsView;

    open spec fn view(&self) -> OptionsView {
        OptionsView {
            config_file: self.config_file@,
            only_group: self.only_group.deep_view(),
            except_group: self.except_group.deep_view(),
            verbose: self.verbose,
            quiet: self.quiet,
        }
    }
}

/// The verbosity for `flags` occurrences of `-v`: two levels are on without
/// any, and each occurrence adds one, as far as the machine can count.
pub open spec fn verbosity(flags: u64) -> usize {
    if flags + 2 <= usize::MAX {
        (flags + 2) as usize
    } else {
        usize::MAX
    }
}

impl OptionsView {
    /// The options when the command line gives none.
    pub open spec fn default() -> OptionsView {
        OptionsView {
            config_file: "config.yml"@,
            only_group: None,
            except_group: None,
            verbose: 0,
            quiet: false,
        }
    }

    /// The options for a command line with these arguments.
    pub open spec fn given(
        file: Option<Seq<char>>,
        only: Option<Seq<char>>,
        except: Option<Seq<char>>,
        flags: u64,
        quiet: bool,
    ) -> OptionsView {
        OptionsView {
            config_file: match file {
                Some(path) => path,
                None => "config.yml"@,
            },
            only_group: only,
            except_group: except,
            verbose: verbosity(flags),
            quiet,
        }
    }
}

impl Default for Options {
    fn default() -> (options: Options)
        ensures
            options@ == OptionsView::default(),
    {
        Options {
            config_file: String::from_str("config.yml"),
            only_group: None,
            except_group: None,
            verbose: 0,
            quiet: false,
        }
    }
}

impl Options {
    /// The options for a command line that gave `file`, `only` and `except`
    /// where they are there, `-v` as often as `flags` says, and `-q` or not.
    pub fn new(
        file: Option<String>,
        only: Option<String>,
        except: Option<String>,
        flags: u64,
        quiet: bool,
    ) -> (options: Options)
        ensures
            options@ == OptionsView::given(
                file.deep_view(),
                only.deep_view(),
                except.deep_view(),
                flags,
                quiet,
            ),
    {
        let mut options = Options::default();
        if let Some(config_file) = file {
            options.config_file = config_file;
        }
        if let Some(only_group) = only {
            options.only_group = Some(only_group);
        }
        if let Some(except_group) = except {
            options.except_group = Some(except_group);
        }
        // Enable Info level by default
        options.verbose = if flags <= usize::MAX as u64 - 2 {
            flags as usize + 2
        } else {
            usize::MAX
        };
        options.quiet = quiet;
        options
    }
}

} // verus!
