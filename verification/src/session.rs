//! The rules of a session: what the user's input means at the login
//! prompt and in the main menu, and which state of the program follows.
//!
//! The program starts at the login prompt. A user who has logged in is in
//! the main menu, where a game can be played, the statistics be shown, and
//! the user can log off or ask for the account to be deleted. The program
//! itself reads the input, keeps the files and prints; it asks these
//! functions what to do next.

use vstd::prelude::*;
use crate::players::{parse_record, PlayerInfo, PlayerView};
use crate::registry::{is_ascending, UsernameRegistry};
use crate::text::{
    append_str, chars_of, lowercase_of, parse_signed, parse_signed_spec, string_of, to_lowercase,
    trim, trimmed,
};

verus! {

/// The name of the file that holds the registry of usernames.
pub const USERNAMES_FILENAME: &'static str = "users.txt";

/// What a user can choose in the main menu.
#[derive(Debug, Copy, Clone, PartialEq, Eq, Structural)]
pub enum UserSelection {
    /// Play a game.
    PlayGame,
    /// Show the statistics of the player.
    ViewStats,
    /// Go back to the login prompt.
    LogOff,
    /// Delete the account of the player.
    DeleteUser,
}

/// Why a line of input is no choice of the main menu.
#[derive(Debug, Copy, Clone, PartialEq, Eq, Structural)]
pub enum SelectionError {
    /// It is not a whole number.
    NotAnInteger,
    /// It is a number, but none of the menu.
    OutOfRange,
}

impl UserSelection {
    /// The choice with the given number in the menu, from one to four.
    pub open spec fn of_number(v: int) -> Option<UserSelection> {
        if v == 1 {
            Some(UserSelection::PlayGame)
        } else if v == 2 {
            Some(UserSelection::ViewStats)
        } else if v == 3 {
            Some(UserSelection::LogOff)
        } else if v == 4 {
            Some(UserSelection::DeleteUser)
        } else {
            None
        }
    }

    /// The choice with the given number in the menu.
    pub fn try_from(v: isize) -> (r: Result<UserSelection, ()>)
        ensures
            match r {
                Ok(selection) => UserSelection::of_number(v as int) == Some(selection),
                Err(_) => UserSelection::of_number(v as int) is None,
            },
    {
        if v == 1 {
            Ok(UserSelection::PlayGame)
        } else if v == 2 {
            Ok(UserSelection::ViewStats)
        } else if v == 3 {
            Ok(UserSelection::LogOff)
        } else if v == 4 {
            Ok(UserSelection::DeleteUser)
        } else {
            Err(())
        }
    }
}

impl SelectionError {
    /// The words that tell the user what was wrong.
    pub open spec fn message_text(self) -> Seq<char> {
        match self {
            SelectionError::NotAnInteger => "Error: selection must be an integer"@,
            SelectionError::OutOfRange => "Error: invalid selection"@,
        }
    }

    /// The words that tell the user what was wrong.
    pub fn message(&self) -> (message: &'static str)
        ensures
            message@ == self.message_text(),
    {
        match self {
            SelectionError::NotAnInteger => "Error: selection must be an integer",
            SelectionError::OutOfRange => "Error: invalid selection",
        }
    }
}

/// The choice that a line of input stands for: the number that the line
/// holds, white space around it aside, must be one of the menu.
pub open spec fn selection_of(input: Seq<char>) -> Result<UserSelection, SelectionError> {
    match parse_signed_spec(trimmed(input)) {
        None => Err(SelectionError::NotAnInteger),
        Some(v) => match UserSelection::of_number(v as int) {
            Some(selection) => Ok(selection),
            None => Err(SelectionError::OutOfRange),
        },
    }
}

/// Reads the choice of the user from a line of input.
pub fn read_selection(input: &str) -> (r: Result<UserSelection, SelectionError>)
    ensures
        r == selection_of(input@),
{
    match parse_signed(&trim(&chars_of(input))) {
        None => Err(SelectionError::NotAnInteger),
        Some(v) => match UserSelection::try_from(v) {
            Ok(selection) => Ok(selection),
            Err(_) => Err(SelectionError::OutOfRange),
        },
    }
}

/// Whether a line of input confirms a request: it holds the letter `y`,
/// small or capital, and nothing else but white space around it.
pub open spec fn confirms(input: Seq<char>) -> bool {
    trimmed(input) == seq!['y'] || trimmed(input) == seq!['Y']
}

/// Tells whether a line of input confirms a request.
pub fn is_confirmed(input: &str) -> (yes: bool)
    ensures
        yes == confirms(input@),
{
    let answer = trim(&chars_of(input));
    let yes = answer.len() == 1 && (answer[0] == 'y' || answer[0] == 'Y');
    proof {
        if yes {
            assert(answer@ =~= seq![answer@[0]]);
        }
    }
    yes
}

/// Whether a name, already in small letters, is one to log in with:
/// neither empty nor the command to quit.
pub open spec fn is_login_name(name: Seq<char>) -> bool {
    name.len() > 0 && name != seq![':', 'q']
}

/// The username that is logged in with a name in small letters; none for
/// an empty name and for the command to quit, `:q`.
pub fn username_from(lowered: String) -> (username: Option<String>)
    ensures
        username == if is_login_name(lowered@) {
            Some(lowered)
        } else {
            None
        },
{
    let letters = chars_of(lowered.as_str());
    if letters.len() == 0 {
        return None;
    }
    if letters.len() == 2 && letters[0] == ':' && letters[1] == 'q' {
        assert(letters@ =~= seq![':', 'q']);
        return None;
    }
    Some(lowered)
}

/// The username that a line of input at the login prompt stands for: the
/// line without the white space around it, in small letters. There is
/// none where the input has ended, the line is blank, or it is the
/// command to quit.
pub open spec fn username_of(input: Option<Seq<char>>) -> Option<Seq<char>> {
    match input {
        None => None,
        Some(line) => {
            let name = lowercase_of(trimmed(line));
            if is_login_name(name) {
                Some(name)
            } else {
                None
            }
        },
    }
}

/// Reads the username from the line given at the login prompt, or from
/// the end of the input.
pub fn read_username(input: Option<&str>) -> (username: Option<String>)
    ensures
        match username {
            Some(name) => input is Some && username_of(Some(input->0@)) == Some(name@),
            None => input is None || username_of(Some(input->0@)) is None,
        },
{
    match input {
        None => None,
        Some(line) => {
            let name = string_of(&trim(&chars_of(line)));
            username_from(to_lowercase(name.as_str()))
        },
    }
}

/// Reads the username given at the login prompt and makes it known to the
/// registry, if it was not. Without a username the registry stays as it
/// is.
pub fn request_username(usernames: &mut UsernameRegistry, input: Option<&str>) -> (username:
    Option<String>)
    requires
        is_ascending(old(usernames)@),
    ensures
        match username {
            Some(name) => {
                &&& input is Some
                &&& username_of(Some(input->0@)) == Some(name@)
                &&& forall|w: Seq<char>|
                    final(usernames)@.contains(w) <==> old(usernames)@.contains(w) || w == name@
            },
            None => {
                &&& input is None || username_of(Some(input->0@)) is None
                &&& final(usernames)@ == old(usernames)@
            },
        },
        is_ascending(final(usernames)@),
{
    match read_username(input) {
        Some(name) => {
            usernames.insert(name.clone());
            Some(name)
        },
        None => None,
    }
}

/// Takes the player out of the registry, and gives the name of the file
/// of the player's record, which is to be deleted.
pub fn delete_user(usernames: &mut UsernameRegistry, player: &PlayerInfo) -> (file_name: String)
    requires
        is_ascending(old(usernames)@),
    ensures
        forall|w: Seq<char>|
            final(usernames)@.contains(w) <==> old(usernames)@.contains(w) && w
                != player@.username,
        is_ascending(final(usernames)@),
        file_name@ == player@.username + ".txt"@,
{
    let username = player.get_username();
    usernames.remove(username);
    player_file_name(username)
}

/// The name of the file that holds the record of a player.
pub fn player_file_name(username: &str) -> (name: String)
    ensures
        name@ == username@ + ".txt"@,
{
    let mut name = chars_of(username);
    append_str(&mut name, ".txt");
    string_of(&name)
}

/// The error of a file that exists and does not hold a record.
#[derive(Debug, Copy, Clone, PartialEq, Eq, Structural)]
pub struct CorruptRecord;

/// Makes the error of a corrupt record.
fn corrupt_record() -> (e: CorruptRecord) {
    CorruptRecord
}

/// The record of the player who logs in: read from the text of the
/// player's file or, where there is no file, that of a new player.
pub fn load_player(username: String, file_text: Option<&str>) -> (r: Result<
    PlayerInfo,
    CorruptRecord,
>)
    ensures
        match r {
            Ok(player) => player@.valid() && match file_text {
                None => player@ == PlayerView::fresh(username@),
                Some(text) => parse_record(text@) == Some(player@),
            },
            Err(_) => file_text is Some && parse_record(file_text->0@) is None,
        },
{
    match file_text {
        None => Ok(PlayerInfo::new(username)),
        Some(text) => match PlayerInfo::from_str(text, corrupt_record) {
            Ok(Some(player)) => Ok(player),
            Ok(None) => Err(CorruptRecord),
            Err(e) => Err(e),
        },
    }
}

/// A state of the program.
#[derive(Debug)]
pub enum ProgramState {
    /// The user is asked to log in.
    LogIn,
    /// The player is in the main menu.
    MainMenu(PlayerInfo),
    /// The account of the player is being deleted.
    DeleteUser(PlayerInfo),
    /// The program ends.
    Exit,
}

/// What a state of the program holds.
pub enum StateView {
    /// The user is asked to log in.
    LogIn,
    /// The player is in the main menu.
    MainMenu(PlayerView),
    /// The account of the player is being deleted.
    DeleteUser(PlayerView),
    /// The program ends.
    Exit,
}

impl View for ProgramState {
    type V = StateView;

    open spec fn view(&self) -> StateView {
        match self {
            ProgramState::LogIn => StateView::LogIn,
            ProgramState::MainMenu(player) => StateView::MainMenu(player@),
            ProgramState::DeleteUser(player) => StateView::DeleteUser(player@),
            ProgramState::Exit => StateView::Exit,
        }
    }
}

impl StateView {
    /// The state after the login prompt. A player who has logged in goes
    /// on to the main menu if the registry was saved. The program ends if
    /// nobody logged in, or if the registry could not be saved.
    pub open spec fn after_login(player: Option<PlayerView>, registry_saved: bool) -> StateView {
        match player {
            Some(record) if registry_saved => StateView::MainMenu(record),
            _ => StateView::Exit,
        }
    }

    /// The state after the main menu. The program ends with the input. A
    /// game and the statistics lead back to the menu, logging off to the
    /// login prompt, and the request to delete the account, if confirmed,
    /// to its deletion, else back to the menu.
    pub open spec fn after_menu(
        player: PlayerView,
        selection: Option<UserSelection>,
        confirmed: bool,
    ) -> StateView {
        match selection {
            None => StateView::Exit,
            Some(UserSelection::PlayGame) => StateView::MainMenu(player),
            Some(UserSelection::ViewStats) => StateView::MainMenu(player),
            Some(UserSelection::LogOff) => StateView::LogIn,
            Some(UserSelection::DeleteUser) => if confirmed {
                StateView::DeleteUser(player)
            } else {
                StateView::MainMenu(player)
            },
        }
    }

    /// The state after an account was deleted: the login prompt, or the
    /// end of the program if the registry could not be saved.
    pub open spec fn after_delete(registry_saved: bool) -> StateView {
        if registry_saved {
            StateView::LogIn
        } else {
            StateView::Exit
        }
    }
}

impl ProgramState {
    /// The state in which the program starts: the login prompt.
    pub fn start() -> (state: ProgramState)
        ensures
            state@ == StateView::LogIn,
    {
        ProgramState::LogIn
    }

    /// Tells whether the program ends in this state.
    pub fn is_exit(&self) -> (exit: bool)
        ensures
            exit == (self@ == StateView::Exit),
    {
        match self {
            ProgramState::Exit => true,
            _ => false,
        }
    }

    /// The state that follows the login prompt.
    pub fn after_login(player: Option<PlayerInfo>, registry_saved: bool) -> (state: ProgramState)
        ensures
            state@ == StateView::after_login(
                match player {
                    Some(p) => Some(p@),
                    None => None,
                },
                registry_saved,
            ),
    {
        match player {
            Some(p) => if registry_saved {
                ProgramState::MainMenu(p)
            } else {
                ProgramState::Exit
            },
            None => ProgramState::Exit,
        }
    }

    /// The state that follows the main menu.
    pub fn after_menu(player: PlayerInfo, selection: Option<UserSelection>, confirmed: bool) -> (state:
        ProgramState)
        ensures
            state@ == StateView::after_menu(player@, selection, confirmed),
    {
        match selection {
            None => ProgramState::Exit,
            Some(UserSelection::PlayGame) => ProgramState::MainMenu(player),
            Some(UserSelection::ViewStats) => ProgramState::MainMenu(player),
            Some(UserSelection::LogOff) => ProgramState::LogIn,
            Some(UserSelection::DeleteUser) => if confirmed {
                ProgramState::DeleteUser(player)
            } else {
                ProgramState::MainMenu(player)
            },
        }
    }

    /// The state that follows the deletion of an account.
    pub fn after_delete(registry_saved: bool) -> (state: ProgramState)
        ensures
            state@ == StateView::after_delete(registry_saved),
    {
        if registry_saved {
            ProgramState::LogIn
        } else {
            ProgramState::Exit
        }
    }
}

} // verus!
