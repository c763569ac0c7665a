//! The report of a failed run by mail.

use crate::config::Email;
use crate::execution::{outcomes, ExecutionResult, Outcome, StepOutcome, StepResult};
use vstd::prelude::*;
use vstd::string::StringExecFns;

verus! {

/// A mail that reports a failed build, with what is needed to hand it to the
/// server.
#[derive(Debug)]
pub struct Mail {
    pub server: String,
    pub user: String,
    pub password: String,
    pub from: String,
    pub to: String,
    pub subject: String,
    pub text: String,
}

/// What a mail holds.
pub struct MailView {
    pub server: Seq<char>,
    pub user: Seq<char>,
    pub password: Seq<char>,
    pub from: Seq<char>,
    pub to: Seq<char>,
    pub subject: Seq<char>,
    pub text: Seq<char>,
}

impl View for Mail {
    type V = MailView;

    open spec fn view(&self) -> MailView {
        MailView {
            server: self.server@,
            user: self.user@,
            password: self.password@,
            from: self.from@,
            to: self.to@,
            subject: self.subject@,
            text: self.text@,
        }
    }
}

/// What a result of `send_mail` holds.
pub open spec fn mail_view(mail: Option<Mail>) -> Option<MailView> {
    match mail {
        Some(mail) => Some(mail@),
        None => None,
    }
}

/// Reports a failed build.
pub trait Mailer {
    /// The mail that this mailer writes about the project `name`, if it
    /// writes one.
    spec fn mail(&self, name: Seq<char>, text: Seq<char>) -> Option<MailView>;

    /// Writes the mail about the failed build of the project `name`, with
    /// `text` as its body. The caller hands it to the server.
    fn send_mail(&self, name: &str, text: &str) -> (mail: Option<Mail>)
        ensures
            mail_view(mail) == self.mail(name@, text@),
    ;
}

/// Reports nothing.
#[derive(Debug)]
pub struct NullMailer;

/// Reports by mail, through an SMTP server.
#[derive(Debug)]
pub struct SmtpMailer {
    pub server: String,
    pub user: String,
    pub password: String,
    pub from: String,
    pub to: String,
}

impl SmtpMailer {
    /// The mailer that a configuration asks for.
    pub fn from_config(config: &Email) -> (mailer: SmtpMailer)
        ensures
            mailer.server@ == config.server@,
            mailer.user@ == config.user@,
            mailer.password@ == config.password@,
            mailer.from@ == config.from@,
            mailer.to@ == config.to@,
    {
        SmtpMailer {
            server: config.server.clone(),
            user: config.user.clone(),
            password: config.password.clone(),
            from: config.from.clone(),
            to: config.to.clone(),
        }
    }
}

impl Mailer for NullMailer {
    open spec fn mail(&self, name: Seq<char>, text: Seq<char>) -> Option<MailView> {
        None
    }

    fn send_mail(&self, _name: &str, _text: &str) -> (mail: Option<Mail>) {
        None
    }
}

impl Mailer for SmtpMailer {
    open spec fn mail(&self, name: Seq<char>, text: Seq<char>) -> Option<MailView> {
        Some(
            MailView {
                server: self.server@,
                user: self.user@,
                password: self.password@,
                from: self.from@,
                to: self.to@,
                subject: "Build failed: "@ + name,
                text,
            },
        )
    }

    fn send_mail(&self, name: &str, text: &str) -> (mail: Option<Mail>) {
        let mut subject = String::from_str("Build failed: ");
        subject.append(name);
        Some(
            Mail {
                server: self.server.clone(),
                user: self.user.clone(),
                password: self.password.clone(),
                from: self.from.clone(),
                to: self.to.clone(),
                subject,
                text: String::from_str(text),
            },
        )
    }
}

/// The mail that is written under a configuration about the project `name`:
/// none where no mail is configured.
pub open spec fn configured_mail(
    config: Option<Email>,
    name: Seq<char>,
    text: Seq<char>,
) -> Option<MailView> {
    match config {
        None => None,
        Some(config) => Some(
            MailView {
                server: config.server@,
                user: config.user@,
                password: config.password@,
                from: config.from@,
                to: config.to@,
                subject: "Build failed: "@ + name,
                text,
            },
        ),
    }
}

/// One of the two mailers.
#[derive(Debug)]
pub enum AnyMailer {
    Null(NullMailer),
    Smtp(SmtpMailer),
}

impl Mailer for AnyMailer {
    open spec fn mail(&self, name: Seq<char>, text: Seq<char>) -> Option<MailView> {
        match self {
            AnyMailer::Null(mailer) => mailer.mail(name, text),
            AnyMailer::Smtp(mailer) => mailer.mail(name, text),
        }
    }

    fn send_mail(&self, name: &str, text: &str) -> (mail: Option<Mail>) {
        match self {
            AnyMailer::Null(mailer) => mailer.send_mail(name, text),
            AnyMailer::Smtp(mailer) => mailer.send_mail(name, text),
        }
    }
}

/// The mailer that a configuration asks for: one that reports nothing where
/// no mail is configured.
pub fn build_mailer(config: &Option<Email>) -> (mailer: AnyMailer)
    ensures
        config is None <==> mailer is Null,
        forall|name: Seq<char>, text: Seq<char>| #[trigger]
            mailer.mail(name, text) == configured_mail(*config, name, text),
{
    match config {
        None => AnyMailer::Null(NullMailer),
        Some(config) => AnyMailer::Smtp(SmtpMailer::from_config(config)),
    }
}

/// The command of a step, as shown.
pub open spec fn step_command(step: StepOutcome) -> Seq<char> {
    match step {
        StepOutcome::Success { command, output } => command,
        StepOutcome::Error { command, output, code } => command,
    }
}

/// What a step printed.
pub open spec fn step_output(step: StepOutcome) -> Seq<char> {
    match step {
        StepOutcome::Success { command, output } => output,
        StepOutcome::Error { command, output, code } => output,
    }
}

/// The steps of a pipeline, for a report: for each step in order its command
/// on a line of its own, then what it printed.
pub open spec fn step_report(steps: Seq<StepOutcome>) -> Seq<char>
    decreases steps.len(),
{
    if steps.len() == 0 {
        Seq::empty()
    } else {
        step_report(steps.drop_last()) + step_command(steps.last()) + seq!['\n'] + step_output(
            steps.last(),
        )
    }
}

/// The text of the mail about a run: none unless the run ended with a
/// failure.
pub open spec fn failure_text(result: Outcome) -> Option<Seq<char>> {
    match result {
        Outcome::Error(steps) => Some("Build failed:\n\n"@ + step_report(steps)),
        _ => None,
    }
}

/// The steps of a pipeline, for a report.
pub fn report_steps(steps: &Vec<StepResult>) -> (report: String)
    ensures
        report@ == step_report(outcomes(steps@)),
{
    let mut report = String::new();
    let mut at: usize = 0;
    assert(outcomes(steps@).take(0) =~= Seq::<StepOutcome>::empty());
    while at < steps.len()
        invariant
            at <= steps.len(),
            report@ == step_report(outcomes(steps@).take(at as int)),
        decreases steps.len() - at,
    {
        assert(outcomes(steps@).take(at + 1).drop_last() =~= outcomes(steps@).take(at as int));
        assert(outcomes(steps@).take(at + 1).last() == steps@[at as int]@);
        match &steps[at] {
            StepResult::Success(command, out) => {
                report.append(command.as_str());
                report.push('\n');
                report.append(out.as_str());
            },
            StepResult::Error(command, out, _) => {
                report.append(command.as_str());
                report.push('\n');
                report.append(out.as_str());
            },
        }
        at = at + 1;
    }
    assert(outcomes(steps@).take(at as int) =~= outcomes(steps@));
    report
}

/// Reports a run of the project `name`: a run that ended with a failure is
/// reported through the mailer, with the failing pipeline's steps as the
/// text; any other run is not reported.
pub fn notify<M: Mailer>(mailer: &M, name: &str, result: &ExecutionResult) -> (mail: Option<Mail>)
    ensures
        mail_view(mail) == match failure_text(result@) {
            Some(text) => mailer.mail(name@, text),
            None => None,
        },
{
    match result {
        ExecutionResult::Error(steps) => {
            let mut text = String::from_str("Build failed:\n\n");
            let report = report_steps(steps);
            text.append(report.as_str());
            mailer.send_mail(name, text.as_str())
        },
        _ => None,
    }
}

} // verus!
