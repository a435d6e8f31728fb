//! The decisions behind the program's window: what the message box shows
//! after a save is read, and the order in which converting or fixing a
//! save backs it up, deciphers it (and, for a fix, patches it) and writes
//! it out.
//!
//! The window performs each `Action` and hands the outcome back as an
//! `Event`; `Session::step` decides what comes next.

use vstd::prelude::*;

use crate::backup::{backup_done_text, backup_failed_text, backup_report};
use crate::cipher::{decrypt, decryptable, decrypted_text};
use crate::mission::{fix_save, fixable, fixed_save};

verus! {

/// The first line of the message box when a save is opened.
pub open spec fn reading_text() -> Seq<char> {
    "[INFO]: Reading Freelancer save.\r\n"@
}

/// The message box after an attempt to read the save named `file_name`.
pub open spec fn read_report_text(file_name: Seq<char>, read_ok: bool) -> Seq<char> {
    if read_ok {
        reading_text() + "[INFO]: "@ + file_name + " successfully read.\r\n"@
    } else {
        reading_text() + "[ERROR]: Save file may be empty or corrupt.\r\n"@
    }
}

/// The line logged before the save is backed up.
pub open spec fn backing_up_text() -> Seq<char> {
    "[INFO]: Backing up your Freelancer save.\r\n"@
}

/// The line logged when the converted save was written.
pub open spec fn written_text() -> Seq<char> {
    "[INFO]: New save successfully written."@
}

/// The line logged when the converted save could not be written.
pub open spec fn write_failed_text() -> Seq<char> {
    "[ERROR]: Failed to write new save file."@
}

/// The line logged when the save holds no mission number that can be
/// raised.
pub open spec fn fix_failed_text() -> Seq<char> {
    "[ERROR]: Failed to fix save: no mission number to raise.\r\n"@
}

/// The text of the message box after the save named `file_name` was
/// read, successfully or not.
pub fn read_report(file_name: &str, read_ok: bool) -> (res: String)
    ensures
        res@ == read_report_text(file_name@, read_ok),
{
    let mut report = String::new();
    report.append("[INFO]: Reading Freelancer save.\r\n");
    if read_ok {
        report.append("[INFO]: ");
        report.append(file_name);
        report.append(" successfully read.\r\n");
    } else {
        report.append("[ERROR]: Save file may be empty or corrupt.\r\n");
    }
    report
}

/// What the user asked for.
#[derive(Clone, Copy, PartialEq, Eq, Structural)]
pub enum Task {
    /// Back the save up, then write it out deciphered.
    Convert,
    /// Back the save up, then write it out deciphered and patched for
    /// v1.1.
    Fix,
}

/// How far a session has got.
#[derive(Clone, Copy, PartialEq, Eq, Structural)]
pub enum Phase {
    /// Nothing done yet.
    Ready,
    /// Waiting for the backup to be made.
    BackingUp,
    /// Waiting for the deciphered (and, for a fix, patched) save to be
    /// written.
    Writing,
    /// Done; further events change nothing.
    Finished,
}

/// What the window reports back.
#[derive(Clone, Copy, PartialEq, Eq, Structural)]
pub enum Event {
    /// The user pressed the button.
    Start,
    /// The backup copy was made, or not.
    BackupDone(bool),
    /// The deciphered save was written, or not.
    WriteDone(bool),
}

/// What the window is to do next.
pub enum Action {
    /// Copy the opened save to its backup.
    Backup,
    /// Write this text over the opened save.
    Write(String),
    /// Nothing.
    Idle,
}

/// One conversion or fix of an opened save.
pub struct Session {
    /// What the user asked for.
    pub task: Task,
    /// How far it has got.
    pub phase: Phase,
    /// The bytes of the opened save.
    pub contents: Vec<u8>,
    /// What was appended to the message box so far.
    pub log: String,
    /// A backup of the save has been made.
    pub backed_up: bool,
}

impl Session {
    /// A session only writes after a backup: while it waits for a write,
    /// the backup has been made.
    pub open spec fn wf(&self) -> bool {
        self.phase == Phase::Writing ==> self.backed_up
    }

    /// Deciphering the save is what comes after its backup.
    pub open spec fn about_to_decipher(&self, event: Event) -> bool {
        &&& self.phase == Phase::BackingUp
        &&& event == Event::BackupDone(true)
    }

    /// A new session for `task` on the save `contents`, with nothing done.
    pub fn new(task: Task, contents: Vec<u8>) -> (res: Session)
        ensures
            res.wf(),
            res.task == task,
            res.phase == Phase::Ready,
            res.contents@ == contents@,
            res.log@.len() == 0,
            !res.backed_up,
    {
        Session { task, phase: Phase::Ready, contents, log: String::new(), backed_up: false }
    }

    /// Takes the next event and says what to do. Starting logs the backup
    /// notice and asks for the backup; its outcome is logged; after a
    /// successful backup the save is deciphered, for a fix also patched,
    /// and written, and the outcome of the write is logged. A fix of a
    /// save without a mission number that can be raised logs that and
    /// stops. Events that do
    /// not fit the phase change nothing.
    pub fn step(&mut self, event: Event) -> (action: Action)
        requires
            old(self).wf(),
            old(self).about_to_decipher(event) ==> decryptable(old(self).contents@),
        ensures
            final(self).wf(),
            final(self).task == old(self).task,
            final(self).contents@ == old(self).contents@,
            final(self).log@.subrange(0, old(self).log@.len() as int) == old(self).log@,
            final(self).log@.len() >= old(self).log@.len(),
            final(self).backed_up == (old(self).backed_up || (old(self).phase == Phase::BackingUp
                && event == Event::BackupDone(true))),
            action is Write ==> old(self).about_to_decipher(event),
            old(self).phase == Phase::Ready && event == Event::Start ==> {
                &&& final(self).log@ == old(self).log@ + backing_up_text()
                &&& final(self).phase == Phase::BackingUp
                &&& action is Backup
            },
            old(self).phase == Phase::BackingUp && event == Event::BackupDone(false) ==> {
                &&& final(self).log@ == old(self).log@ + backup_failed_text()
                &&& final(self).phase == Phase::Finished
                &&& action is Idle
            },
            old(self).about_to_decipher(event) && old(self).task == Task::Convert ==> {
                &&& final(self).log@ == old(self).log@ + backup_done_text()
                &&& final(self).phase == Phase::Writing
                &&& action matches Action::Write(text) && text@ == decrypted_text(old(self).contents@)
            },
            old(self).about_to_decipher(event) && old(self).task == Task::Fix && fixable(
                decrypted_text(old(self).contents@),
            ) ==> {
                &&& final(self).log@ == old(self).log@ + backup_done_text()
                &&& final(self).phase == Phase::Writing
                &&& action matches Action::Write(text) && text@ == fixed_save(
                    decrypted_text(old(self).contents@),
                )
            },
            old(self).about_to_decipher(event) && old(self).task == Task::Fix && !fixable(
                decrypted_text(old(self).contents@),
            ) ==> {
                &&& final(self).log@ == old(self).log@ + backup_done_text() + fix_failed_text()
                &&& final(self).phase == Phase::Finished
                &&& action is Idle
            },
            old(self).phase == Phase::Writing && event == Event::WriteDone(true) ==> {
                &&& final(self).log@ == old(self).log@ + written_text()
                &&& final(self).phase == Phase::Finished
                &&& action is Idle
            },
            old(self).phase == Phase::Writing && event == Event::WriteDone(false) ==> {
                &&& final(self).log@ == old(self).log@ + write_failed_text()
                &&& final(self).phase == Phase::Finished
                &&& action is Idle
            },
            !(old(self).phase == Phase::Ready && event == Event::Start) && !(old(self).phase
                == Phase::BackingUp && event is BackupDone) && !(old(self).phase == Phase::Writing
                && event is WriteDone) ==> {
                &&& final(self).log@ == old(self).log@
                &&& final(self).phase == old(self).phase
                &&& action is Idle
            },
    {
        match (self.phase, event) {
            (Phase::Ready, Event::Start) => {
                self.log.append("[INFO]: Backing up your Freelancer save.\r\n");
                self.phase = Phase::BackingUp;
                Action::Backup
            },
            (Phase::BackingUp, Event::BackupDone(copied)) => {
                match backup_report(copied) {
                    Ok(o) => {
                        self.log.append(o);
                        self.backed_up = true;
                        match decrypt(self.contents.as_slice()) {
                            Ok(my_buf) => match self.task {
                                Task::Convert => {
                                    self.phase = Phase::Writing;
                                    Action::Write(my_buf)
                                },
                                Task::Fix => match fix_save(my_buf) {
                                    Ok(fixed) => {
                                        self.phase = Phase::Writing;
                                        Action::Write(fixed)
                                    },
                                    Err(_) => {
                                        self.log.append(
                                            "[ERROR]: Failed to fix save: no mission number to raise.\r\n",
                                        );
                                        self.phase = Phase::Finished;
                                        Action::Idle
                                    },
                                },
                            },
                            Err(_) => {
                                self.log.append("[ERROR]: Failed to decipher save.");
                                self.phase = Phase::Finished;
                                Action::Idle
                            },
                        }
                    },
                    Err(e) => {
                        self.log.append(e);
                        self.phase = Phase::Finished;
                        Action::Idle
                    },
                }
            },
            (Phase::Writing, Event::WriteDone(written)) => {
                if written {
                    self.log.append("[INFO]: New save successfully written.");
                } else {
                    self.log.append("[ERROR]: Failed to write new save file.");
                }
                self.phase = Phase::Finished;
                Action::Idle
            },
            _ => Action::Idle,
        }
    }
}

} // verus!
