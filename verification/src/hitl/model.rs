//! Questions, answers, and which answers fit which questions.

use crate::collections::{value_views, Duplicate, Table};
use crate::text::{
    contains_text, copy_texts, ends_with, is_suffix, join3, join5, texts,
};
use vstd::prelude::*;

verus! {

/// What kind of answer a question asks for.
#[derive(Debug, PartialEq)]
pub enum QuestionKind {
    /// One line of free text.
    ShortText,
    /// Several lines of free text.
    LongText,
    /// One of `options`, shown as a list.
    Select { options: Vec<String> },
    /// One of `options`, shown as buttons.
    Radio { options: Vec<String> },
    /// Any of `options`, possibly none.
    Checkboxes { options: Vec<String> },
    /// The name of a file; where `accept` is not empty, with one of these
    /// endings.
    FileUpload { accept: Vec<String> },
}

/// A [`QuestionKind`], with lists as sequences.
pub enum QuestionKindView {
    ShortText,
    LongText,
    Select { options: Seq<String> },
    Radio { options: Seq<String> },
    Checkboxes { options: Seq<String> },
    FileUpload { accept: Seq<String> },
}

impl View for QuestionKind {
    type V = QuestionKindView;

    open spec fn view(&self) -> QuestionKindView {
        match *self {
            QuestionKind::ShortText => QuestionKindView::ShortText,
            QuestionKind::LongText => QuestionKindView::LongText,
            QuestionKind::Select { options } => QuestionKindView::Select { options: options@ },
            QuestionKind::Radio { options } => QuestionKindView::Radio { options: options@ },
            QuestionKind::Checkboxes { options } => QuestionKindView::Checkboxes {
                options: options@,
            },
            QuestionKind::FileUpload { accept } => QuestionKindView::FileUpload { accept: accept@ },
        }
    }
}

impl Clone for QuestionKind {
    fn clone(&self) -> (r: Self)
        ensures
            r@ == self@,
    {
        match self {
            QuestionKind::ShortText => QuestionKind::ShortText,
            QuestionKind::LongText => QuestionKind::LongText,
            QuestionKind::Select { options } => QuestionKind::Select {
                options: copy_texts(options),
            },
            QuestionKind::Radio { options } => QuestionKind::Radio { options: copy_texts(options) },
            QuestionKind::Checkboxes { options } => QuestionKind::Checkboxes {
                options: copy_texts(options),
            },
            QuestionKind::FileUpload { accept } => QuestionKind::FileUpload {
                accept: copy_texts(accept),
            },
        }
    }
}

/// A question of a form. `key` names it within the form.
#[derive(Debug, PartialEq)]
pub struct Question {
    pub key: String,
    pub label: String,
    pub kind: QuestionKind,
}

/// A [`Question`], with lists as sequences.
pub struct QuestionView {
    pub key: String,
    pub label: String,
    pub kind: QuestionKindView,
}

impl View for Question {
    type V = QuestionView;

    open spec fn view(&self) -> QuestionView {
        QuestionView { key: self.key, label: self.label, kind: self.kind@ }
    }
}

impl Clone for Question {
    fn clone(&self) -> (r: Self)
        ensures
            r@ == self@,
    {
        Question { key: self.key.clone(), label: self.label.clone(), kind: self.kind.clone() }
    }
}

impl Question {
    pub fn short_text(key: String, label: String) -> (r: Self)
        ensures
            r == (Question { key, label, kind: QuestionKind::ShortText }),
    {
        Question { key, label, kind: QuestionKind::ShortText }
    }

    pub fn long_text(key: String, label: String) -> (r: Self)
        ensures
            r == (Question { key, label, kind: QuestionKind::LongText }),
    {
        Question { key, label, kind: QuestionKind::LongText }
    }

    pub fn select(key: String, label: String, options: Vec<String>) -> (r: Self)
        ensures
            r == (Question { key, label, kind: QuestionKind::Select { options } }),
    {
        Question { key, label, kind: QuestionKind::Select { options } }
    }

    pub fn radio(key: String, label: String, options: Vec<String>) -> (r: Self)
        ensures
            r == (Question { key, label, kind: QuestionKind::Radio { options } }),
    {
        Question { key, label, kind: QuestionKind::Radio { options } }
    }

    pub fn checkboxes(key: String, label: String, options: Vec<String>) -> (r: Self)
        ensures
            r == (Question { key, label, kind: QuestionKind::Checkboxes { options } }),
    {
        Question { key, label, kind: QuestionKind::Checkboxes { options } }
    }

    /// `accept` lists the endings that a file name may have; where it is
    /// empty, any file name will do.
    pub fn file_upload(key: String, label: String, accept: Vec<String>) -> (r: Self)
        ensures
            r == (Question { key, label, kind: QuestionKind::FileUpload { accept } }),
    {
        Question { key, label, kind: QuestionKind::FileUpload { accept } }
    }
}

/// The answer to a question.
#[derive(Debug, PartialEq)]
pub enum Answer {
    Single(String),
    Multiple(Vec<String>),
}

/// An [`Answer`], with lists as sequences.
pub enum AnswerView {
    Single(String),
    Multiple(Seq<String>),
}

impl View for Answer {
    type V = AnswerView;

    open spec fn view(&self) -> AnswerView {
        match *self {
            Answer::Single(choice) => AnswerView::Single(choice),
            Answer::Multiple(choices) => AnswerView::Multiple(choices@),
        }
    }
}

impl Clone for Answer {
    fn clone(&self) -> (r: Self)
        ensures
            r@ == self@,
    {
        match self {
            Answer::Single(choice) => Answer::Single(choice.clone()),
            Answer::Multiple(choices) => Answer::Multiple(copy_texts(choices)),
        }
    }
}

impl Duplicate for Answer {
    fn duplicate(&self) -> (r: Self) {
        self.clone()
    }
}

/// The answers to a form, by the key of the question.
pub type Answers = Table<String, Answer>;

/// Answers, with lists as sequences.
pub open spec fn answer_views(answers: Map<Seq<char>, Answer>) -> Map<Seq<char>, AnswerView> {
    Map::new(|k: Seq<char>| answers.contains_key(k), |k: Seq<char>| answers[k]@)
}

/// A copy of answers.
pub fn copy_answers(answers: &Answers) -> (r: Answers)
    ensures
        answer_views(r@) == answer_views(answers@),
{
    let r = answers.duplicate();
    proof {
        assert(answer_views(r@) =~= value_views(r@));
        assert(answer_views(answers@) =~= value_views(answers@));
    }
    r
}

/// Whether `c` has the property `White_Space` of the Unicode Character
/// Database.
pub open spec fn white_space(c: char) -> bool {
    ||| '\u{9}' <= c <= '\u{d}'
    ||| c == '\u{20}'
    ||| c == '\u{85}'
    ||| c == '\u{a0}'
    ||| c == '\u{1680}'
    ||| '\u{2000}' <= c <= '\u{200a}'
    ||| c == '\u{2028}'
    ||| c == '\u{2029}'
    ||| c == '\u{202f}'
    ||| c == '\u{205f}'
    ||| c == '\u{3000}'
}

/// Calls `char::is_whitespace`, which says whether the character has the
/// property `White_Space`: the characters of [`white_space`], no others.
#[verifier::external_body]
fn is_white_space(c: char) -> (r: bool)
    ensures
        r == white_space(c),
{
    c.is_whitespace()
}

/// The lower-case form of a text.
pub uninterp spec fn lowercase_of(text: Seq<char>) -> Seq<char>;

/// Calls `str::to_lowercase`, which depends on the text alone.
#[verifier::external_body]
fn to_lowercase(text: &str) -> (r: String)
    ensures
        r@ == lowercase_of(text@),
{
    text.to_lowercase()
}

/// Whether a text holds nothing but white space.
pub open spec fn is_blank(text: Seq<char>) -> bool {
    forall|i: int| 0 <= i < text.len() ==> white_space(#[trigger] text[i])
}

/// Whether a text holds nothing but white space.
fn blank(text: &str) -> (r: bool)
    ensures
        r == is_blank(text@),
{
    let n: usize = text.unicode_len();
    let mut i: usize = 0;
    while i < n
        invariant
            i <= n,
            n == text@.len(),
            forall|j: int| 0 <= j < i ==> white_space(#[trigger] text@[j]),
        decreases n - i,
    {
        if !is_white_space(text.get_char(i)) {
            assert(!white_space(text@[i as int]));
            return false;
        }
        i = i + 1;
    }
    true
}

/// Whether a file name has one of the accepted endings, in whatever case, or
/// all endings are accepted.
pub open spec fn accepts(accept: Seq<String>, filename: Seq<char>) -> bool {
    accept.len() == 0 || exists|i: int|
        0 <= i < accept.len() && is_suffix(
            lowercase_of((#[trigger] accept[i])@),
            lowercase_of(filename),
        )
}

/// Whether `text` ends with one of `endings`, or there are none to choose from.
pub open spec fn ends_with_one(text: Seq<char>, endings: Seq<String>) -> bool {
    endings.len() == 0 || exists|i: int|
        0 <= i < endings.len() && is_suffix((#[trigger] endings[i])@, text)
}

/// Whether `text` ends with one of `endings`, or there are none to choose from.
pub fn ends_with_any(text: &str, endings: &Vec<String>) -> (r: bool)
    ensures
        r == ends_with_one(text@, endings@),
{
    if endings.len() == 0 {
        return true;
    }
    let mut i: usize = 0;
    while i < endings.len()
        invariant
            i <= endings@.len(),
            forall|j: int| 0 <= j < i ==> !is_suffix((#[trigger] endings@[j])@, text@),
        decreases endings@.len() - i,
    {
        if ends_with(text, endings[i].as_str()) {
            assert(is_suffix(endings@[i as int]@, text@));
            return true;
        }
        i = i + 1;
    }
    false
}

/// Whether a file name has one of the accepted endings, in whatever case, or
/// all endings are accepted.
fn accepted(accept: &Vec<String>, filename: &String) -> (r: bool)
    ensures
        r == accepts(accept@, filename@),
{
    let lower = to_lowercase(filename.as_str());
    let mut endings: Vec<String> = Vec::new();
    let mut i: usize = 0;
    while i < accept.len()
        invariant
            i <= accept@.len(),
            endings@.len() == i,
            forall|j: int|
                0 <= j < i ==> (#[trigger] endings@[j])@ == lowercase_of(accept@[j]@),
        decreases accept@.len() - i,
    {
        endings.push(to_lowercase(accept[i].as_str()));
        i = i + 1;
    }
    proof {
        if accepts(accept@, filename@) && accept@.len() > 0 {
            let j = choose|j: int|
                0 <= j < accept@.len() && is_suffix(
                    lowercase_of((#[trigger] accept@[j])@),
                    lowercase_of(filename@),
                );
            assert(is_suffix(endings@[j]@, lower@));
        }
        if ends_with_one(lower@, endings@) && endings@.len() > 0 {
            let j = choose|j: int|
                0 <= j < endings@.len() && is_suffix((#[trigger] endings@[j])@, lower@);
            assert(is_suffix(lowercase_of(accept@[j]@), lowercase_of(filename@)));
        }
    }
    ends_with_any(lower.as_str(), &endings)
}

/// What is wrong with an uploaded file, given whether its name is blank and
/// whether its ending is accepted.
pub open spec fn upload_problem(
    key: Seq<char>,
    filename: Seq<char>,
    is_blank: bool,
    is_accepted: bool,
) -> Option<Seq<char>> {
    if is_blank {
        Some("nom de fichier manquant pour '"@ + key + "'"@)
    } else if is_accepted {
        None
    } else {
        Some("'"@ + filename + "' n'a pas une extension acceptée pour '"@ + key + "'"@)
    }
}

/// Checks an uploaded file, given whether its name is blank and whether its
/// ending is accepted.
pub fn check_upload(key: &str, filename: &str, is_blank: bool, is_accepted: bool) -> (r: Result<
    (),
    String,
>)
    ensures
        match r {
            Ok(_) => upload_problem(key@, filename@, is_blank, is_accepted) is None,
            Err(message) => upload_problem(key@, filename@, is_blank, is_accepted) == Some(
                message@,
            ),
        },
{
    if is_blank {
        Err(join3("nom de fichier manquant pour '", key, "'"))
    } else if is_accepted {
        Ok(())
    } else {
        Err(join5("'", filename, "' n'a pas une extension acceptée pour '", key, "'"))
    }
}

/// The first of `choices` that is not among `options`.
pub open spec fn first_invalid(choices: Seq<String>, options: Seq<String>) -> Option<String>
    decreases choices.len(),
{
    if choices.len() == 0 {
        None
    } else if !texts(options).contains(choices[0]@) {
        Some(choices[0])
    } else {
        first_invalid(choices.skip(1), options)
    }
}

/// The first of `choices` that is not among `options`.
fn find_invalid<'a>(choices: &'a Vec<String>, options: &Vec<String>) -> (r: Option<&'a String>)
    ensures
        match r {
            Some(choice) => first_invalid(choices@, options@) == Some(*choice),
            None => first_invalid(choices@, options@) is None,
        },
{
    let mut i: usize = 0;
    assert(choices@.skip(0) =~= choices@);
    while i < choices.len()
        invariant
            i <= choices@.len(),
            first_invalid(choices@, options@) == first_invalid(
                choices@.skip(i as int),
                options@,
            ),
        decreases choices@.len() - i,
    {
        assert(choices@.skip(i as int)[0] == choices@[i as int]);
        assert(choices@.skip(i as int).skip(1) =~= choices@.skip(i + 1));
        if !contains_text(options, &choices[i]) {
            return Some(&choices[i]);
        }
        i = i + 1;
    }
    assert(choices@.skip(i as int) =~= Seq::<String>::empty());
    None
}

/// Why `answer` does not fit `question`, if it does not.
pub open spec fn misfit(question: Question, answer: Answer) -> Option<Seq<char>> {
    let key = question.key@;
    match (question.kind, answer) {
        (QuestionKind::ShortText, Answer::Single(_)) => None,
        (QuestionKind::LongText, Answer::Single(_)) => None,
        (QuestionKind::Select { options }, Answer::Single(choice)) => if texts(options@).contains(
            choice@,
        ) {
            None
        } else {
            Some(no_option_text(choice@, key))
        },
        (QuestionKind::Radio { options }, Answer::Single(choice)) => if texts(options@).contains(
            choice@,
        ) {
            None
        } else {
            Some(no_option_text(choice@, key))
        },
        (QuestionKind::Checkboxes { options }, Answer::Multiple(choices)) => match first_invalid(
            choices@,
            options@,
        ) {
            Some(choice) => Some(no_option_text(choice@, key)),
            None => None,
        },
        (QuestionKind::FileUpload { accept }, Answer::Single(filename)) => upload_problem(
            key,
            filename@,
            is_blank(filename@),
            accepts(accept@, filename@),
        ),
        _ => Some("type de réponse inattendu pour '"@ + key + "'"@),
    }
}

/// The message for a choice that is no option.
pub open spec fn no_option_text(choice: Seq<char>, key: Seq<char>) -> Seq<char> {
    "'"@ + choice + "' n'est pas une option valide pour '"@ + key + "'"@
}

fn no_option(choice: &String, key: &String) -> (r: String)
    ensures
        r@ == no_option_text(choice@, key@),
{
    join5("'", choice.as_str(), "' n'est pas une option valide pour '", key.as_str(), "'")
}

/// What is wrong with the answer to `question`, if anything is.
pub open spec fn problem(question: Question, answers: Map<Seq<char>, Answer>) -> Option<Seq<char>> {
    if !answers.contains_key(question.key@) {
        Some("réponse manquante pour '"@ + question.key@ + "'"@)
    } else {
        misfit(question, answers[question.key@])
    }
}

/// The first problem of a form, in the order of its questions.
pub open spec fn first_problem(
    questions: Seq<Question>,
    answers: Map<Seq<char>, Answer>,
) -> Option<Seq<char>>
    decreases questions.len(),
{
    if questions.len() == 0 {
        None
    } else {
        match problem(questions[0], answers) {
            Some(message) => Some(message),
            None => first_problem(questions.skip(1), answers),
        }
    }
}

/// Checks the answer to one question.
pub fn validate_answer(question: &Question, answers: &Answers) -> (r: Result<(), String>)
    ensures
        match r {
            Ok(_) => problem(*question, answers@) is None,
            Err(message) => problem(*question, answers@) == Some(message@),
        },
{
    let answer = match answers.get(&question.key) {
        Some(answer) => answer,
        None => {
            return Err(join3("réponse manquante pour '", question.key.as_str(), "'"));
        },
    };
    match (&question.kind, answer) {
        (QuestionKind::ShortText, Answer::Single(_)) => Ok(()),
        (QuestionKind::LongText, Answer::Single(_)) => Ok(()),
        (QuestionKind::Select { options }, Answer::Single(choice)) => {
            if contains_text(options, choice) {
                Ok(())
            } else {
                Err(no_option(choice, &question.key))
            }
        },
        (QuestionKind::Radio { options }, Answer::Single(choice)) => {
            if contains_text(options, choice) {
                Ok(())
            } else {
                Err(no_option(choice, &question.key))
            }
        },
        (QuestionKind::Checkboxes { options }, Answer::Multiple(choices)) => {
            match find_invalid(choices, options) {
                Some(choice) => Err(no_option(choice, &question.key)),
                None => Ok(()),
            }
        },
        (QuestionKind::FileUpload { accept }, Answer::Single(filename)) => {
            let is_blank = blank(filename.as_str());
            let is_accepted = accepted(accept, filename);
            check_upload(question.key.as_str(), filename.as_str(), is_blank, is_accepted)
        },
        _ => Err(join3("type de réponse inattendu pour '", question.key.as_str(), "'")),
    }
}

/// Checks that `answers` answers each of `questions` with what it asks for.
/// The first question, in order, that is not answered so gives the error.
/// Answers to other questions do not matter.
pub fn validate_answers(questions: &[Question], answers: &Answers) -> (r: Result<(), String>)
    ensures
        match r {
            Ok(_) => first_problem(questions@, answers@) is None,
            Err(message) => first_problem(questions@, answers@) == Some(message@),
        },
{
    let mut i: usize = 0;
    assert(questions@.skip(0) =~= questions@);
    while i < questions.len()
        invariant
            i <= questions@.len(),
            first_problem(questions@, answers@) == first_problem(
                questions@.skip(i as int),
                answers@,
            ),
        decreases questions@.len() - i,
    {
        assert(questions@.skip(i as int)[0] == questions@[i as int]);
        assert(questions@.skip(i as int).skip(1) =~= questions@.skip(i + 1));
        match validate_answer(&questions[i], answers) {
            Ok(_) => {},
            Err(message) => {
                return Err(message);
            },
        }
        i = i + 1;
    }
    assert(questions@.skip(i as int) =~= Seq::<Question>::empty());
    Ok(())
}

/// A form is accepted exactly when each of its questions has an answer that
/// fits it.
pub proof fn lemma_accepted_iff_every_answer_fits(
    questions: Seq<Question>,
    answers: Map<Seq<char>, Answer>,
)
    ensures
        first_problem(questions, answers) is None <==> forall|i: int|
            0 <= i < questions.len() ==> problem(#[trigger] questions[i], answers) is None,
    decreases questions.len(),
{
    if questions.len() > 0 {
        let rest = questions.skip(1);
        lemma_accepted_iff_every_answer_fits(rest, answers);
        if first_problem(questions, answers) is None {
            assert forall|i: int| 0 <= i < questions.len() implies problem(
                #[trigger] questions[i],
                answers,
            ) is None by {
                if i > 0 {
                    assert(rest[i - 1] == questions[i]);
                }
            }
        }
        if forall|i: int|
            0 <= i < questions.len() ==> problem(#[trigger] questions[i], answers) is None {
            assert(problem(questions[0], answers) is None);
            assert forall|i: int| 0 <= i < rest.len() implies problem(
                #[trigger] rest[i],
                answers,
            ) is None by {
                assert(rest[i] == questions[i + 1]);
            }
        }
    }
}

/// Checkboxes may be left all unchecked: an empty choice always fits.
pub proof fn lemma_no_choice_fits_checkboxes(question: Question, answer: Answer)
    requires
        question.kind is Checkboxes,
        answer matches Answer::Multiple(choices) && choices@.len() == 0,
    ensures
        misfit(question, answer) is None,
{
}

/// A question that asks for text is answered by any one text, whatever it says,
/// and by nothing else.
pub proof fn lemma_text_answers(question: Question, answers: Map<Seq<char>, Answer>)
    requires
        question.kind is ShortText || question.kind is LongText,
    ensures
        problem(question, answers) is None <==> answers.contains_key(question.key@)
            && answers[question.key@] is Single,
{
}

/// A question that asks for one of its options is answered by one text that is
/// an option, and by nothing else; another text is named in the message.
pub proof fn lemma_choice_answers(
    question: Question,
    options: Vec<String>,
    answers: Map<Seq<char>, Answer>,
)
    requires
        question.kind == (QuestionKind::Select { options }) || question.kind
            == (QuestionKind::Radio { options }),
    ensures
        problem(question, answers) is None <==> answers.contains_key(question.key@) && (
        answers[question.key@] matches Answer::Single(choice) && exists|i: int|
            0 <= i < options@.len() && (#[trigger] options@[i])@ == choice@),
        answers.contains_key(question.key@) && (answers[question.key@] matches Answer::Single(
            choice,
        ) && forall|i: int| 0 <= i < options@.len() ==> (#[trigger] options@[i])@ != choice@)
            ==> problem(question, answers) == Some(
            "'"@ + answers[question.key@]->Single_0@ + "' n'est pas une option valide pour '"@
                + question.key@ + "'"@,
        ),
{
    if answers.contains_key(question.key@) {
        match answers[question.key@] {
            Answer::Single(choice) => {
                lemma_texts_contain(options@, choice@);
            },
            _ => {},
        }
    }
}

/// A question with checkboxes is answered by a list of texts each of which is an
/// option, an empty one included, and by nothing else.
pub proof fn lemma_checkbox_answers(
    question: Question,
    options: Vec<String>,
    answers: Map<Seq<char>, Answer>,
)
    requires
        question.kind == (QuestionKind::Checkboxes { options }),
    ensures
        problem(question, answers) is None <==> answers.contains_key(question.key@) && (
        answers[question.key@] matches Answer::Multiple(choices) && forall|c: int|
            0 <= c < choices@.len() ==> exists|i: int|
                0 <= i < options@.len() && (#[trigger] options@[i])@ == (#[trigger] choices@[c])@),
{
    if answers.contains_key(question.key@) {
        match answers[question.key@] {
            Answer::Multiple(choices) => {
                lemma_first_invalid(choices@, options@);
            },
            _ => {},
        }
    }
}

/// Of the texts that are no option, the first one is named in the message.
pub proof fn lemma_first_wrong_checkbox_is_named(
    question: Question,
    options: Vec<String>,
    answers: Map<Seq<char>, Answer>,
    choices: Vec<String>,
    c: int,
)
    requires
        question.kind == (QuestionKind::Checkboxes { options }),
        answers.contains_key(question.key@),
        answers[question.key@] == Answer::Multiple(choices),
        0 <= c < choices@.len(),
        forall|i: int| 0 <= i < options@.len() ==> (#[trigger] options@[i])@ != choices@[c]@,
        forall|d: int|
            0 <= d < c ==> exists|i: int|
                0 <= i < options@.len() && (#[trigger] options@[i])@ == (#[trigger] choices@[d])@,
    ensures
        problem(question, answers) == Some(
            "'"@ + choices@[c]@ + "' n'est pas une option valide pour '"@ + question.key@ + "'"@,
        ),
{
    lemma_first_invalid(choices@, options@);
    assert(first_invalid(choices@, options@) == Some(choices@[c]));
}

/// A question that asks for a file is answered by one name that holds more than
/// white space and that has one of the accepted endings, in whatever case, or any
/// ending where none is named; by nothing else.
pub proof fn lemma_file_answers(
    question: Question,
    accept: Vec<String>,
    answers: Map<Seq<char>, Answer>,
)
    requires
        question.kind == (QuestionKind::FileUpload { accept }),
    ensures
        problem(question, answers) is None <==> answers.contains_key(question.key@) && (
        answers[question.key@] matches Answer::Single(name) && (exists|c: int|
            0 <= c < name@.len() && !white_space(#[trigger] name@[c])) && (accept@.len() == 0
            || exists|i: int, front: Seq<char>|
            0 <= i < accept@.len() && lowercase_of(name@) == #[trigger] (front + lowercase_of(
                (#[trigger] accept@[i])@,
            )))),
        answers.contains_key(question.key@) && (answers[question.key@] matches Answer::Single(name)
            && forall|c: int| 0 <= c < name@.len() ==> white_space(#[trigger] name@[c]))
            ==> problem(question, answers) == Some(
            "nom de fichier manquant pour '"@ + question.key@ + "'"@,
        ),
        answers.contains_key(question.key@) && (answers[question.key@] matches Answer::Single(name)
            && (exists|c: int| 0 <= c < name@.len() && !white_space(#[trigger] name@[c])))
            && problem(question, answers) is Some ==> problem(question, answers) == Some(
            "'"@ + answers[question.key@]->Single_0@ + "' n'a pas une extension acceptée pour '"@
                + question.key@ + "'"@,
        ),
{
    if answers.contains_key(question.key@) {
        match answers[question.key@] {
            Answer::Single(name) => {
                let low = lowercase_of(name@);
                assert forall|i: int| 0 <= i < accept@.len() implies (is_suffix(
                    lowercase_of((#[trigger] accept@[i])@),
                    low,
                ) <==> exists|front: Seq<char>|
                    low == #[trigger] (front + lowercase_of(accept@[i]@))) by {
                    let end = lowercase_of(accept@[i]@);
                    if is_suffix(end, low) {
                        let front = low.take(low.len() - end.len());
                        assert(low =~= front + end);
                    }
                    if exists|front: Seq<char>| low == #[trigger] (front + end) {
                        let front = choose|front: Seq<char>| low == #[trigger] (front + end);
                        assert(low.skip(low.len() - end.len()) =~= end);
                    }
                }
                if accepts(accept@, name@) && accept@.len() > 0 {
                    let i = choose|i: int|
                        0 <= i < accept@.len() && is_suffix(
                            lowercase_of((#[trigger] accept@[i])@),
                            low,
                        );
                    let front = choose|front: Seq<char>|
                        low == #[trigger] (front + lowercase_of(accept@[i]@));
                    assert(low == front + lowercase_of(accept@[i]@));
                }
            },
            _ => {},
        }
    }
}

/// An answer of the wrong shape, several texts where one is asked for or one
/// where several are, is refused as such; so is a missing one.
pub proof fn lemma_misshapen_answers(question: Question, answers: Map<Seq<char>, Answer>)
    ensures
        !answers.contains_key(question.key@) ==> problem(question, answers) == Some(
            "réponse manquante pour '"@ + question.key@ + "'"@,
        ),
        answers.contains_key(question.key@) && (answers[question.key@] is Multiple) != (
        question.kind is Checkboxes) ==> problem(question, answers) == Some(
            "type de réponse inattendu pour '"@ + question.key@ + "'"@,
        ),
{
}

/// What is wrong with a form is what is wrong with the first of its questions
/// with which anything is.
pub proof fn lemma_first_problem_counts(
    questions: Seq<Question>,
    answers: Map<Seq<char>, Answer>,
    message: Seq<char>,
)
    ensures
        first_problem(questions, answers) == Some(message) <==> exists|i: int|
            {
                &&& 0 <= i < questions.len()
                &&& problem(#[trigger] questions[i], answers) == Some(message)
                &&& forall|j: int|
                    0 <= j < i ==> problem(#[trigger] questions[j], answers) is None
            },
    decreases questions.len(),
{
    if questions.len() > 0 {
        let rest = questions.skip(1);
        lemma_first_problem_counts(rest, answers, message);
        assert forall|j: int| 0 <= j < rest.len() implies rest[j] == questions[j + 1] by {}
        if first_problem(questions, answers) == Some(message) {
            if problem(questions[0], answers) is None {
                let i = choose|i: int|
                    {
                        &&& 0 <= i < rest.len()
                        &&& problem(#[trigger] rest[i], answers) == Some(message)
                        &&& forall|j: int|
                            0 <= j < i ==> problem(#[trigger] rest[j], answers) is None
                    };
                assert(problem(questions[i + 1], answers) == Some(message));
                assert forall|j: int| 0 <= j < i + 1 implies problem(
                    #[trigger] questions[j],
                    answers,
                ) is None by {
                    if j > 0 {
                        assert(rest[j - 1] == questions[j]);
                    }
                }
            }
        }
        if exists|i: int|
            {
                &&& 0 <= i < questions.len()
                &&& problem(#[trigger] questions[i], answers) == Some(message)
                &&& forall|j: int|
                    0 <= j < i ==> problem(#[trigger] questions[j], answers) is None
            } {
            let i = choose|i: int|
                {
                    &&& 0 <= i < questions.len()
                    &&& problem(#[trigger] questions[i], answers) == Some(message)
                    &&& forall|j: int|
                        0 <= j < i ==> problem(#[trigger] questions[j], answers) is None
                };
            if i > 0 {
                assert(problem(questions[0], answers) is None);
                assert(rest[i - 1] == questions[i]);
                assert forall|j: int| 0 <= j < i - 1 implies problem(
                    #[trigger] rest[j],
                    answers,
                ) is None by {
                    assert(rest[j] == questions[j + 1]);
                }
            }
        }
    }
}

proof fn lemma_texts_contain(list: Seq<String>, text: Seq<char>)
    ensures
        texts(list).contains(text) <==> exists|i: int|
            0 <= i < list.len() && (#[trigger] list[i])@ == text,
{
    if texts(list).contains(text) {
        let i = texts(list).index_of(text);
        assert(list[i]@ == text);
    }
    if exists|i: int| 0 <= i < list.len() && (#[trigger] list[i])@ == text {
        let i = choose|i: int| 0 <= i < list.len() && (#[trigger] list[i])@ == text;
        assert(texts(list)[i] == text);
    }
}

proof fn lemma_first_invalid(choices: Seq<String>, options: Seq<String>)
    ensures
        first_invalid(choices, options) is None <==> forall|c: int|
            0 <= c < choices.len() ==> exists|i: int|
                0 <= i < options.len() && (#[trigger] options[i])@ == (#[trigger] choices[c])@,
        forall|c: int|
            0 <= c < choices.len() && (forall|i: int|
                0 <= i < options.len() ==> (#[trigger] options[i])@ != choices[c]@) && (forall|
                d: int,
            |
                0 <= d < c ==> exists|i: int|
                    0 <= i < options.len() && (#[trigger] options[i])@ == (#[trigger] choices[d])@)
                ==> first_invalid(choices, options) == Some(#[trigger] choices[c]),
    decreases choices.len(),
{
    if choices.len() > 0 {
        let rest = choices.skip(1);
        lemma_first_invalid(rest, options);
        lemma_texts_contain(options, choices[0]@);
        assert forall|c: int| 0 <= c < rest.len() implies #[trigger] rest[c] == choices[c + 1] by {}
        if first_invalid(choices, options) is None {
            assert forall|c: int| 0 <= c < choices.len() implies exists|i: int|
                0 <= i < options.len() && (#[trigger] options[i])@ == (
                #[trigger] choices[c])@ by {
                if c > 0 {
                    assert(rest[c - 1] == choices[c]);
                }
            }
        }
        if forall|c: int|
            0 <= c < choices.len() ==> exists|i: int|
                0 <= i < options.len() && (#[trigger] options[i])@ == (#[trigger] choices[c])@ {
            assert(choices[0] == choices[0]);
            assert forall|c: int| 0 <= c < rest.len() implies exists|i: int|
                0 <= i < options.len() && (#[trigger] options[i])@ == (#[trigger] rest[c])@ by {
                assert(rest[c] == choices[c + 1]);
            }
        }
        assert forall|c: int|
            0 <= c < choices.len() && (forall|i: int|
                0 <= i < options.len() ==> (#[trigger] options[i])@ != choices[c]@) && (forall|
                d: int,
            |
                0 <= d < c ==> exists|i: int|
                    0 <= i < options.len() && (#[trigger] options[i])@ == (
                    #[trigger] choices[d])@) implies first_invalid(choices, options) == Some(
            #[trigger] choices[c],
        ) by {
            if c > 0 {
                assert(choices[0] == choices[0]);
                assert(texts(options).contains(choices[0]@));
                assert(rest[c - 1] == choices[c]);
                assert forall|d: int| 0 <= d < c - 1 implies exists|i: int|
                    0 <= i < options.len() && (#[trigger] options[i])@ == (
                    #[trigger] rest[d])@ by {
                    assert(rest[d] == choices[d + 1]);
                }
            }
        }
    }
}

} // verus!
