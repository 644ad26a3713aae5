//! The line-by-line prompts of `prox` without arguments: picking an environment
//! and asking for the fields of a new one.
use vstd::prelude::*;
use crate::cli::{
    arg_views, environment_name, is_environment_name, is_host, name_error, host_error,
    parse_ports, ports, validate_host,
};
use crate::text::{
    chars_of, find_char, first_pos, lemma_first_pos_join, parse_range, parse_unsigned, push_decimal, push_range,
    push_str, decimal, str_eq, string_of, trim, trim_bounds, trim_end, trim_start, trimmed,
};

verus! {

/// The next line as `BufRead::read_line` gives it (with its `\n`, if any) and
/// what follows it.
pub open spec fn next_line(s: Seq<char>) -> (Seq<char>, Seq<char>) {
    let p = first_pos(s, '\n');
    if p < s.len() {
        (s.take(p + 1 as int), s.skip(p + 1 as int))
    } else {
        (s, Seq::<char>::empty())
    }
}

/// The end of the line that starts at `pos`.
fn line_end(v: &Vec<char>, pos: usize) -> (r: usize)
    requires
        pos < v.len(),
    ensures
        pos < r <= v.len(),
        v@.subrange(pos as int, r as int) == next_line(v@.skip(pos as int)).0,
        v@.skip(r as int) == next_line(v@.skip(pos as int)).1,
{
    let n = v.len();
    let e = find_char(v, pos, n, '\n');
    proof {
        let s = v@.skip(pos as int);
        assert(v@.subrange(pos as int, n as int) =~= s);
        if e < n {
            assert(s.take(e - pos + 1) =~= v@.subrange(pos as int, e + 1));
            assert(s.skip(e - pos + 1) =~= v@.skip(e + 1));
        } else {
            assert(v@.subrange(pos as int, n as int) =~= s);
            assert(v@.skip(n as int) =~= Seq::<char>::empty());
        }
    }
    if e < n {
        e + 1
    } else {
        n
    }
}

pub open spec fn taken_error() -> Seq<char> {
    "that environment already exists"@
}

/// Which value a prompt asks for, and so how an answer is checked.
pub enum Field {
    /// A new environment's name; the names already saved are taken.
    Name(Vec<String>),
    Host,
    Ports,
}

pub enum FieldModel {
    Name(Seq<Seq<char>>),
    Host,
    Ports,
}

impl View for Field {
    type V = FieldModel;

    open spec fn view(&self) -> FieldModel {
        match self {
            Field::Name(names) => FieldModel::Name(arg_views(names@)),
            Field::Host => FieldModel::Host,
            Field::Ports => FieldModel::Ports,
        }
    }
}

/// The check of an answer.
pub open spec fn field_check(f: FieldModel, v: Seq<char>) -> Result<(), Seq<char>> {
    match f {
        FieldModel::Name(names) => if !is_environment_name(v) {
            Err(name_error())
        } else if names.contains(v) {
            Err(taken_error())
        } else {
            Ok(())
        },
        FieldModel::Host => if is_host(v) {
            Ok(())
        } else {
            Err(host_error())
        },
        FieldModel::Ports => match parse_ports(v) {
            Ok(_) => Ok(()),
            Err(e) => Err(e),
        },
    }
}

fn check_field(f: &Field, v: &str) -> (r: Result<(), String>)
    ensures
        match (r, field_check(f@, v@)) {
            (Ok(()), Ok(())) => true,
            (Err(e), Err(m)) => e@ == m,
            _ => false,
        },
{
    match f {
        Field::Name(names) => {
            match environment_name(v) {
                Err(e) => {
                    return Err(e);
                },
                Ok(()) => {},
            }
            let mut i: usize = 0;
            while i < names.len()
                invariant
                    i <= names.len(),
                    is_environment_name(v@),
                    f@ == FieldModel::Name(arg_views(names@)),
                    forall|j: int| 0 <= j < i ==> (#[trigger] names@[j])@ != v@,
                decreases names.len() - i,
            {
                if str_eq(names[i].as_str(), v) {
                    proof {
                        assert(arg_views(names@).len() == names@.len());
                        assert(arg_views(names@)[i as int] == names@[i as int]@);
                        assert(arg_views(names@)[i as int] == v@);
                        assert(arg_views(names@).contains(v@));
                        assert(f@ == FieldModel::Name(arg_views(names@)));
                    }
                    return Err(string_of("that environment already exists"));
                }
                i = i + 1;
            }
            proof {
                if arg_views(names@).contains(v@) {
                    let j = choose|j: int|
                        0 <= j < arg_views(names@).len() && arg_views(names@)[j] == v@;
                    assert(names@[j]@ == v@);
                }
            }
            Ok(())
        },
        Field::Host => validate_host(v),
        Field::Ports => match ports(v) {
            Ok(_) => Ok(()),
            Err(e) => Err(e),
        },
    }
}

/// What to do with one line read at a prompt.
pub enum PromptStep {
    /// The answer, without surrounding white space.
    Accept(String),
    /// End of input or `q`.
    Cancel,
    /// Print this (the reason and a newline) and ask again.
    Retry(String),
}

pub enum PromptStepModel {
    Accept(Seq<char>),
    Cancel,
    Retry(Seq<char>),
}

impl View for PromptStep {
    type V = PromptStepModel;

    open spec fn view(&self) -> PromptStepModel {
        match self {
            PromptStep::Accept(s) => PromptStepModel::Accept(s@),
            PromptStep::Cancel => PromptStepModel::Cancel,
            PromptStep::Retry(s) => PromptStepModel::Retry(s@),
        }
    }
}

/// One line (`None` at end of input) at a prompt for `f`.
pub open spec fn prompt_step_spec(line: Option<Seq<char>>, f: FieldModel) -> PromptStepModel {
    match line {
        None => PromptStepModel::Cancel,
        Some(l) => {
            let v = trim(l);
            if v == "q"@ {
                PromptStepModel::Cancel
            } else {
                match field_check(f, v) {
                    Ok(()) => PromptStepModel::Accept(v),
                    Err(e) => PromptStepModel::Retry(e + "\n"@),
                }
            }
        },
    }
}

/// Decides what one line read at a prompt means.
pub fn prompt_step(line: Option<&str>, field: &Field) -> (r: PromptStep)
    ensures
        r@ == prompt_step_spec(
            match line {
                Some(l) => Some(l@),
                None => None,
            },
            field@,
        ),
{
    match line {
        None => PromptStep::Cancel,
        Some(l) => {
            let value = trimmed(l);
            if str_eq(value.as_str(), "q") {
                return PromptStep::Cancel;
            }
            match check_field(field, value.as_str()) {
                Ok(()) => PromptStep::Accept(value),
                Err(e) => {
                    let mut m = e;
                    push_str(&mut m, "\n");
                    PromptStep::Retry(m)
                },
            }
        },
    }
}

pub open spec fn prompt_text(label: Seq<char>) -> Seq<char> {
    label + ": "@
}

/// A prompt for `label` answered from `input`: the accepted answer (or `None`)
/// and everything written.
pub open spec fn prompt_run(label: Seq<char>, input: Seq<char>, f: FieldModel) -> (
    Option<Seq<char>>,
    Seq<char>,
)
    decreases input.len(),
{
    let ask = prompt_text(label);
    if input.len() == 0 {
        (None, ask)
    } else {
        let (line, rest) = next_line(input);
        match prompt_step_spec(Some(line), f) {
            PromptStepModel::Accept(v) => (Some(v), ask),
            PromptStepModel::Cancel => (None, ask),
            PromptStepModel::Retry(m) => {
                if rest.len() < input.len() {
                    let (r, out) = prompt_run(label, rest, f);
                    (r, ask + m + out)
                } else {
                    (None, ask + m)
                }
            },
        }
    }
}

proof fn lemma_next_line_shorter(s: Seq<char>)
    requires
        s.len() > 0,
    ensures
        next_line(s).1.len() < s.len(),
{
    crate::text::lemma_first_pos(s, '\n');
}

/// Asks for `label` until an answer passes the check of `field`, reading lines
/// from `input` and writing to `output`; `None` when the input ends or is `q`.
pub fn prompt(label: &str, input: &str, output: &mut String, field: &Field) -> (r: Option<String>)
    ensures
        match r {
            Some(s) => prompt_run(label@, input@, field@).0 == Some(s@),
            None => prompt_run(label@, input@, field@).0 == None::<Seq<char>>,
        },
        final(output)@ == old(output)@ + prompt_run(label@, input@, field@).1,
{
    let v = chars_of(input);
    let n = v.len();
    let mut pos: usize = 0;
    assert(v@.skip(0) =~= v@);
    loop
        invariant
            n == v.len(),
            v@ == input@,
            pos <= n,
            prompt_run(label@, input@, field@).0 == prompt_run(label@, v@.skip(pos as int), field@).0,
            old(output)@ + prompt_run(label@, input@, field@).1 == output@ + prompt_run(
                label@,
                v@.skip(pos as int),
                field@,
            ).1,
        decreases n - pos,
    {
        let ghost rest_before = v@.skip(pos as int);
        push_str(output, label);
        push_str(output, ": ");
        if pos == n {
            proof {
                assert(rest_before.len() == 0);
                assert(output@ =~= old(output)@ + prompt_run(label@, input@, field@).1);
            }
            return None;
        }
        let end = line_end(&v, pos);
        let mut line = String::new();
        push_range(&mut line, &v, pos, end);
        proof {
            lemma_next_line_shorter(rest_before);
        }
        match prompt_step(Some(line.as_str()), field) {
            PromptStep::Accept(value) => {
                assert(output@ =~= old(output)@ + prompt_run(label@, input@, field@).1);
                return Some(value);
            },
            PromptStep::Cancel => {
                assert(output@ =~= old(output)@ + prompt_run(label@, input@, field@).1);
                return None;
            },
            PromptStep::Retry(message) => {
                let ghost before = output@;
                push_str(output, message.as_str());
                pos = end;
                proof {
                    let tail = prompt_run(label@, v@.skip(pos as int), field@).1;
                    assert(before + message@ + tail =~= (before + message@) + tail);
                    assert(prompt_run(label@, rest_before, field@).1 == prompt_text(label@)
                        + message@ + tail);
                    assert(old(output)@ + prompt_run(label@, input@, field@).1 =~= output@ + tail);
                }
            },
        }
    }
}

} // verus!

verus! {

/// `  1) dev` and so on, one line per name.
pub open spec fn menu_lines(names: Seq<Seq<char>>) -> Seq<char>
    decreases names.len(),
{
    if names.len() == 0 {
        seq![]
    } else {
        menu_lines(names.drop_last()) + "  "@ + decimal(names.len()) + ") "@ + names.last()
            + "\n"@
    }
}

/// The list that the picker prints first; its last number creates a new one.
pub open spec fn menu_text(names: Seq<Seq<char>>) -> Seq<char> {
    "Pick an environment:\n"@ + menu_lines(names) + "  "@ + decimal(names.len() + 1)
        + ") create a new environment\n"@
}

pub open spec fn pick_text() -> Seq<char> {
    "Environment (number/name, q to quit): "@
}

pub open spec fn pick_again_text() -> Seq<char> {
    "Choose a number or name from the list.\n"@
}

/// Index of the first `v` in `names`, or `names.len()`.
pub open spec fn position(names: Seq<Seq<char>>, v: Seq<char>) -> nat
    decreases names.len(),
{
    if names.len() == 0 {
        0
    } else if names[0] == v {
        0
    } else {
        1 + position(names.drop_first(), v)
    }
}

/// An answer to the picker: a listed name, or a number from 1 to one past the
/// last name (that one means "create").
pub open spec fn select_choice(names: Seq<Seq<char>>, v: Seq<char>) -> Option<nat> {
    if position(names, v) < names.len() {
        Some(position(names, v))
    } else {
        match parse_unsigned(v, usize::MAX as nat) {
            Some(k) => if 1 <= k && k - 1 <= names.len() {
                Some((k - 1) as nat)
            } else {
                None
            },
            None => None,
        }
    }
}

/// What to do with one line read by the picker.
#[derive(Debug, PartialEq, Eq, Structural)]
pub enum SelectStep {
    /// An index into the names; the length of the names means "create".
    Chosen(usize),
    /// End of input or `q`.
    Quit,
    /// Print the hint and ask again.
    Retry,
}

pub open spec fn select_step_spec(names: Seq<Seq<char>>, line: Option<Seq<char>>) -> SelectStep {
    match line {
        None => SelectStep::Quit,
        Some(l) => {
            let v = trim(l);
            if v == "q"@ {
                SelectStep::Quit
            } else {
                match select_choice(names, v) {
                    Some(k) => SelectStep::Chosen(k as usize),
                    None => SelectStep::Retry,
                }
            }
        },
    }
}

proof fn lemma_position(names: Seq<Seq<char>>, v: Seq<char>, p: nat)
    requires
        p <= names.len(),
        p < names.len() ==> names[p as int] == v,
        forall|j: int| 0 <= j < p ==> names[j] != v,
    ensures
        position(names, v) == p,
    decreases names.len(),
{
    if names.len() > 0 && p > 0 {
        assert forall|j: int| 0 <= j < p - 1 implies names.drop_first()[j] != v by {
            assert(names.drop_first()[j] == names[j + 1]);
        }
        lemma_position(names.drop_first(), v, (p - 1) as nat);
    }
}

/// Decides what one line (`None` at end of input) read by the picker means.
pub fn select_step(names: &Vec<String>, line: Option<&str>) -> (r: SelectStep)
    ensures
        r == select_step_spec(
            arg_views(names@),
            match line {
                Some(l) => Some(l@),
                None => None,
            },
        ),
{
    let l = match line {
        None => {
            return SelectStep::Quit;
        },
        Some(l) => l,
    };
    let value = chars_of(l);
    let (a, b) = trim_bounds(&value, 0, value.len());
    let mut v = String::new();
    push_range(&mut v, &value, a, b);
    proof {
        assert(value@.subrange(0, value@.len() as int) =~= value@);
        assert(v@ =~= trim(l@));
    }
    if str_eq(v.as_str(), "q") {
        return SelectStep::Quit;
    }
    let ghost ns = arg_views(names@);
    let mut i: usize = 0;
    while i < names.len()
        invariant
            i <= names.len(),
            ns == arg_views(names@),
            ns.len() == names.len(),
            line == Some(l),
            v@ == trim(l@),
            v@ != "q"@,
            forall|j: int| 0 <= j < i ==> ns[j] != v@,
        decreases names.len() - i,
    {
        assert(ns[i as int] == names@[i as int]@);
        if str_eq(names[i].as_str(), v.as_str()) {
            proof {
                lemma_position(ns, v@, i as nat);
            }
            return SelectStep::Chosen(i);
        }
        i = i + 1;
    }
    proof {
        lemma_position(ns, v@, ns.len());
    }
    let digits = chars_of(v.as_str());
    assert(digits@.subrange(0, digits@.len() as int) =~= digits@);
    match parse_range(&digits, 0, digits.len(), usize::MAX as u64) {
        Some(k) => {
            if k >= 1 && k - 1 <= names.len() as u64 {
                SelectStep::Chosen((k - 1) as usize)
            } else {
                SelectStep::Retry
            }
        },
        None => SelectStep::Retry,
    }
}

/// The picker answered from `input`: the chosen index (or `None`) and what it
/// writes after the menu.
pub open spec fn select_run(names: Seq<Seq<char>>, input: Seq<char>) -> (Option<nat>, Seq<char>)
    decreases input.len(),
{
    if input.len() == 0 {
        (None, pick_text())
    } else {
        let (line, rest) = next_line(input);
        match select_step_spec(names, Some(line)) {
            SelectStep::Chosen(k) => (Some(k as nat), pick_text()),
            SelectStep::Quit => (None, pick_text()),
            SelectStep::Retry => {
                if rest.len() < input.len() {
                    let (r, out) = select_run(names, rest);
                    (r, pick_text() + pick_again_text() + out)
                } else {
                    (None, pick_text() + pick_again_text())
                }
            },
        }
    }
}

/// Writes the menu.
pub fn push_menu(output: &mut String, names: &Vec<String>)
    requires
        names.len() < usize::MAX,
    ensures
        final(output)@ == old(output)@ + menu_text(arg_views(names@)),
{
    let ghost ns = arg_views(names@);
    push_str(output, "Pick an environment:\n");
    let ghost start = output@;
    let mut i: usize = 0;
    while i < names.len()
        invariant
            i <= names.len() < usize::MAX,
            ns == arg_views(names@),
            ns.len() == names.len(),
            output@ == start + menu_lines(ns.take(i as int)),
        decreases names.len() - i,
    {
        proof {
            assert(ns.take(i + 1).drop_last() =~= ns.take(i as int));
            assert(ns.take(i + 1).last() == names@[i as int]@);
        }
        push_str(output, "  ");
        push_decimal(output, (i + 1) as u64);
        push_str(output, ") ");
        push_str(output, names[i].as_str());
        push_str(output, "\n");
        i = i + 1;
        assert(output@ =~= start + menu_lines(ns.take(i as int)));
    }
    assert(ns.take(names.len() as int) =~= ns);
    push_str(output, "  ");
    push_decimal(output, (names.len() + 1) as u64);
    push_str(output, ") create a new environment\n");
    assert(output@ =~= old(output)@ + menu_text(ns));
}

/// Shows the environments and reads the choice from `input`: `Some(i)` picks
/// `names[i]`, `Some(names.len())` asks to create one, `None` quits.
pub fn select_index(names: &Vec<String>, input: &str, output: &mut String) -> (r: Option<usize>)
    requires
        names.len() < usize::MAX,
    ensures
        match r {
            Some(k) => select_run(arg_views(names@), input@).0 == Some(k as nat),
            None => select_run(arg_views(names@), input@).0 == None::<nat>,
        },
        final(output)@ == old(output)@ + menu_text(arg_views(names@)) + select_run(
            arg_views(names@),
            input@,
        ).1,
{
    let ghost ns = arg_views(names@);
    push_menu(output, names);
    let ghost start = output@;
    let v = chars_of(input);
    let n = v.len();
    let mut pos: usize = 0;
    assert(v@.skip(0) =~= v@);
    loop
        invariant
            n == v.len(),
            v@ == input@,
            ns == arg_views(names@),
            pos <= n,
            start == old(output)@ + menu_text(ns),
            select_run(ns, input@).0 == select_run(ns, v@.skip(pos as int)).0,
            start + select_run(ns, input@).1 == output@ + select_run(ns, v@.skip(pos as int)).1,
        decreases n - pos,
    {
        let ghost rest_before = v@.skip(pos as int);
        push_str(output, "Environment (number/name, q to quit): ");
        if pos == n {
            proof {
                assert(rest_before.len() == 0);
                assert(output@ =~= start + select_run(ns, input@).1);
            }
            return None;
        }
        let end = line_end(&v, pos);
        let mut line = String::new();
        push_range(&mut line, &v, pos, end);
        proof {
            lemma_next_line_shorter(rest_before);
        }
        match select_step(names, Some(line.as_str())) {
            SelectStep::Chosen(k) => {
                assert(output@ =~= start + select_run(ns, input@).1);
                return Some(k);
            },
            SelectStep::Quit => {
                assert(output@ =~= start + select_run(ns, input@).1);
                return None;
            },
            SelectStep::Retry => {
                let ghost before = output@;
                push_str(output, "Choose a number or name from the list.\n");
                pos = end;
                proof {
                    let tail = select_run(ns, v@.skip(pos as int)).1;
                    assert(select_run(ns, rest_before).1 == pick_text() + pick_again_text()
                        + tail);
                    assert(start + select_run(ns, input@).1 =~= output@ + tail);
                }
            },
        }
    }
}

} // verus!

verus! {

proof fn lemma_quit_line(rest: Seq<char>)
    ensures
        next_line("q\n"@ + rest).0 == "q\n"@,
        trim("q\n"@) == "q"@,
        ("q\n"@ + rest).len() > 0,
{
    reveal_strlit("q\n");
    reveal_strlit("q");
    let q = seq!['q'];
    assert("q\n"@ + rest =~= q + seq!['\n'] + rest);
    lemma_first_pos_join(q, '\n', rest);
    let s = q + seq!['\n'] + rest;
    assert(s.take(2) =~= "q\n"@);
    assert(trim_start("q\n"@) == "q\n"@);
    assert("q\n"@.drop_last() =~= "q"@);
    assert(trim_end("q"@) == "q"@);
}

/// Law: answering `q` at a prompt cancels it, whatever follows.
pub proof fn law_q_cancels_prompt(label: Seq<char>, rest: Seq<char>, f: FieldModel)
    ensures
        prompt_run(label, "q\n"@ + rest, f) == (None::<Seq<char>>, prompt_text(label)),
{
    lemma_quit_line(rest);
}

/// Law: answering `q` at the picker quits it, whatever the names and whatever
/// follows.
pub proof fn law_q_quits_picker(names: Seq<Seq<char>>, rest: Seq<char>)
    ensures
        select_run(names, "q\n"@ + rest) == (None::<nat>, pick_text()),
{
    lemma_quit_line(rest);
}

} // verus!

verus! {

proof fn lemma_position_found(names: Seq<Seq<char>>, v: Seq<char>, i: int)
    requires
        0 <= i < names.len(),
        names[i] == v,
    ensures
        position(names, v) <= i,
        names[position(names, v) as int] == v,
        forall|j: int| 0 <= j < position(names, v) ==> names[j] != v,
    decreases names.len(),
{
    if names[0] != v {
        lemma_position_found(names.drop_first(), v, i - 1);
        let p = position(names.drop_first(), v);
        assert(names[p + 1 as int] == names.drop_first()[p as int]);
        assert forall|j: int| 0 <= j < position(names, v) implies names[j] != v by {
            if j > 0 {
                assert(names[j] == names.drop_first()[j - 1]);
            }
        }
    }
}

/// Law: typing a listed name (one without surrounding white space, and not `q`)
/// picks that name: the first place in the list where it stands.
pub proof fn law_listed_name_picks_itself(names: Seq<Seq<char>>, i: int)
    requires
        0 <= i < names.len(),
        names.len() <= usize::MAX,
        trim(names[i]) == names[i],
        names[i] != "q"@,
    ensures
        select_step_spec(names, Some(names[i])) matches SelectStep::Chosen(k) && {
            &&& k <= i
            &&& names[k as int] == names[i]
            &&& forall|j: int| 0 <= j < k ==> names[j] != names[i]
        },
{
    lemma_position_found(names, names[i], i);
}

/// Law: typing a number from 1 to one past the last name, when no name reads
/// the same, picks the name at that place (one past the last asks to create).
pub proof fn law_number_picks(names: Seq<Seq<char>>, k: nat)
    requires
        1 <= k <= names.len() + 1,
        k <= usize::MAX,
        forall|j: int| 0 <= j < names.len() ==> names[j] != decimal(k),
    ensures
        select_step_spec(names, Some(decimal(k))) == SelectStep::Chosen((k - 1) as usize),
{
    let v = decimal(k);
    crate::text::lemma_decimal(k);
    crate::text::lemma_trim_digits(v);
    reveal_strlit("q");
    assert(v != "q"@) by {
        assert(crate::text::is_digit(v[0]));
        if v == "q"@ {
            assert(v[0] == 'q');
        }
    }
    assert(!(v.len() > 0 && v[0] == '+')) by {
        assert(crate::text::is_digit(v[0]));
    }
    lemma_position(names, v, names.len());
}

} // verus!

verus! {

proof fn lemma_no_white_space_trim(v: Seq<char>)
    requires
        v.len() > 0,
        !crate::text::is_white_space(v[0]),
        !crate::text::is_white_space(v.last()),
    ensures
        trim(v) == v,
{
    assert(crate::text::trim_start(v) == v);
    assert(crate::text::trim_end(v) == v);
}

/// Law: at the host prompt, a valid host (other than `q`, which cancels) is
/// accepted as typed.
pub proof fn law_valid_host_accepted(v: Seq<char>)
    requires
        is_host(v),
        v != "q"@,
    ensures
        prompt_step_spec(Some(v), FieldModel::Host) == PromptStepModel::Accept(v),
{
    assert(crate::cli::is_host_char(v[0]));
    assert(crate::cli::is_host_char(v[v.len() - 1]));
    lemma_no_white_space_trim(v);
}

/// Law: at the name prompt, a valid name that is not saved yet is accepted.
pub proof fn law_new_name_accepted(v: Seq<char>, names: Seq<Seq<char>>)
    requires
        is_environment_name(v),
        !names.contains(v),
        v != "q"@,
    ensures
        prompt_step_spec(Some(v), FieldModel::Name(names)) == PromptStepModel::Accept(v),
{
    assert(crate::cli::is_name_char(v[v.len() - 1]));
    lemma_no_white_space_trim(v);
}

/// Law: at the ports prompt, a port list that parses (as typed, without white
/// space around it) is accepted.
pub proof fn law_port_list_accepted(v: Seq<char>)
    requires
        parse_ports(v) is Ok,
        trim(v) == v,
        v != "q"@,
    ensures
        prompt_step_spec(Some(v), FieldModel::Ports) == PromptStepModel::Accept(v),
{
}

} // verus!
