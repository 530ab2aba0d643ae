//! A small interactive shell core: template decoding for prompts, date
//! expansion, shell flags and the read/execute state machine.
pub mod dates;
pub mod flags;
pub mod prompt;
pub mod shell;
pub mod substitutions;
pub mod table;
mod text;
pub mod unescape;

pub use dates::{date_format_list, date_stamp, expand_dates_with, strftime_replace, unavailable_date, DateError};
pub use flags::{apply_set, flag_for, Flags, SetError};
pub use prompt::{format_text, get_prompt, TemplateError};
pub use shell::{has_unbalanced_quotes, spaced_args, ReadEvent, Report, Shell, ShellState, StepOutcome};
pub use substitutions::{decimal_string, first_label, home_relative_path, last_segment, prompt_map, PromptFacts};
pub use table::SubstitutionTable;
pub use unescape::{unescape, unescape_mapped, DecodeError};
