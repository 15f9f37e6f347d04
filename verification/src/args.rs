//! The arguments of a run, and the rules that they have to meet.

use crate::charsets::{charset_from_choice, chosen_symbols, CharsetChoice, FileText};
use crate::finder_errors::{FinderError, FinderErrorView};
use crate::password_gen::{check_start, lemma_start_refusal_by_symbols, start_refusal};
use vstd::prelude::*;
use vstd::string::*;

verus! {

/// The arguments of a run, once they have been accepted.
pub struct Arguments {
    pub input_file: String,
    pub workers: Option<usize>,
    pub charset_choice: CharsetChoice,
    pub min_password_len: usize,
    pub max_password_len: usize,
    pub file_number: usize,
    pub password_dictionary: Option<String>,
    pub starting_password: Option<String>,
}

/// The arguments as the command line gives them, with what the file system
/// says of the files that they name.
pub struct CommandLine {
    pub input_file: String,
    /// Whether `input_file` is a file.
    pub input_file_exists: bool,
    pub workers: Option<usize>,
    pub password_dictionary: Option<String>,
    /// Whether `password_dictionary` is a file.
    pub password_dictionary_exists: bool,
    pub charset: String,
    pub charset_file: Option<String>,
    /// Whether `charset_file` is a file.
    pub charset_file_exists: bool,
    /// What was read of `charset_file`, where it is a file.
    pub charset_file_text: Option<FileText>,
    pub min_password_len: usize,
    pub max_password_len: usize,
    pub file_number: usize,
    pub starting_password: Option<String>,
}

/// An argument that is not acceptable, with the reason.
pub open spec fn argument_error(message: Seq<char>) -> Option<FinderErrorView> {
    Some(FinderErrorView::CliArgumentError { message })
}

/// The choice of alphabet that the arguments make: the charset file where
/// there is one, and the preset codes where there is none.
pub open spec fn choice_of(line: CommandLine) -> CharsetChoice {
    match line.charset_file {
        Some(path) => CharsetChoice::File(path),
        None => CharsetChoice::Preset(line.charset),
    }
}

/// Why a starting password is refused, if it is: a dictionary is used, the
/// alphabet cannot be had, the password holds a symbol that is not of the
/// alphabet, or its length is out of the range.
pub open spec fn starting_password_refusal(line: CommandLine, start: Seq<char>) -> Option<
    FinderErrorView,
> {
    if line.password_dictionary is Some {
        argument_error("'startingPassword' cannot be used with a dictionary file"@)
    } else {
        match chosen_symbols(choice_of(line), line.charset_file_text) {
            Err(error) => Some(error),
            Ok(symbols) => match start_refusal(
                symbols,
                line.min_password_len,
                line.max_password_len,
                start,
            ) {
                Some(reason) => argument_error(reason),
                None => None,
            },
        }
    }
}

/// Why the arguments are refused, if they are: the first rule, in the
/// order in which the rules are checked, that they do not meet.
pub open spec fn refusal(line: CommandLine) -> Option<FinderErrorView> {
    if !line.input_file_exists {
        argument_error("'inputFile' does not exist"@)
    } else if line.password_dictionary is Some && !line.password_dictionary_exists {
        argument_error("'passwordDictionary' does not exist"@)
    } else if line.charset_file is Some && !line.charset_file_exists {
        argument_error("'charsetFile' does not exist"@)
    } else if line.workers == Some(0usize) {
        argument_error("'workers' must be positive"@)
    } else if line.min_password_len == 0 {
        argument_error("'minPasswordLen' must be positive"@)
    } else if line.max_password_len == 0 {
        argument_error("'maxPasswordLen' must be positive"@)
    } else if line.min_password_len > line.max_password_len {
        argument_error("'maxPasswordLen' must be equal or greater than 'minPasswordLen'"@)
    } else {
        match line.starting_password {
            Some(start) => starting_password_refusal(line, start@),
            None => None,
        }
    }
}

/// `arguments` are the arguments of `line`: the charset file where there
/// is one, the preset codes where there is none, and everything else as
/// it stands.
pub open spec fn taken_from(arguments: Arguments, line: CommandLine) -> bool {
    &&& arguments.input_file == line.input_file
    &&& arguments.workers == line.workers
    &&& arguments.charset_choice == choice_of(line)
    &&& arguments.min_password_len == line.min_password_len
    &&& arguments.max_password_len == line.max_password_len
    &&& arguments.file_number == line.file_number
    &&& arguments.password_dictionary == line.password_dictionary
    &&& arguments.starting_password == line.starting_password
}

fn argument_refused(message: &str) -> (error: FinderError)
    ensures
        error@ == (FinderErrorView::CliArgumentError { message: message@ }),
{
    FinderError::CliArgumentError { message: String::from_str(message) }
}

/// Accepts the arguments of `line`, or refuses them for the first rule
/// that they do not meet.
pub fn get_args(line: CommandLine) -> (r: Result<Arguments, FinderError>)
    ensures
        match r {
            Ok(arguments) => refusal(line) is None && taken_from(arguments, line),
            Err(error) => refusal(line) == Some(error@),
        },
{
    if !line.input_file_exists {
        return Err(argument_refused("'inputFile' does not exist"));
    }
    if line.password_dictionary.is_some() && !line.password_dictionary_exists {
        return Err(argument_refused("'passwordDictionary' does not exist"));
    }
    if line.charset_file.is_some() && !line.charset_file_exists {
        return Err(argument_refused("'charsetFile' does not exist"));
    }
    match line.workers {
        Some(count) => {
            if count == 0 {
                return Err(argument_refused("'workers' must be positive"));
            }
        },
        None => {},
    }
    if line.min_password_len == 0 {
        return Err(argument_refused("'minPasswordLen' must be positive"));
    }
    if line.max_password_len == 0 {
        return Err(argument_refused("'maxPasswordLen' must be positive"));
    }
    if line.min_password_len > line.max_password_len {
        return Err(
            argument_refused("'maxPasswordLen' must be equal or greater than 'minPasswordLen'"),
        );
    }
    let charset_choice = match &line.charset_file {
        Some(path) => CharsetChoice::File(path.clone()),
        None => CharsetChoice::Preset(line.charset.clone()),
    };
    match &line.starting_password {
        Some(start) => {
            if line.password_dictionary.is_some() {
                return Err(
                    argument_refused("'startingPassword' cannot be used with a dictionary file"),
                );
            }
            let file_text = match &line.charset_file_text {
                Some(text) => Some(text),
                None => None,
            };
            let charset = match charset_from_choice(&charset_choice, file_text) {
                Ok(charset) => charset,
                Err(error) => {
                    return Err(error);
                },
            };
            proof {
                lemma_start_refusal_by_symbols(
                    charset@,
                    chosen_symbols(choice_of(line), line.charset_file_text)->Ok_0,
                    line.min_password_len,
                    line.max_password_len,
                    start@,
                );
            }
            match check_start(
                &charset,
                line.min_password_len,
                line.max_password_len,
                start.as_str(),
            ) {
                Ok(_) => {},
                Err(error) => {
                    return Err(error);
                },
            }
        },
        None => {},
    }
    Ok(
        Arguments {
            input_file: line.input_file,
            workers: line.workers,
            charset_choice,
            min_password_len: line.min_password_len,
            max_password_len: line.max_password_len,
            file_number: line.file_number,
            password_dictionary: line.password_dictionary,
            starting_password: line.starting_password,
        },
    )
}

} // verus!
