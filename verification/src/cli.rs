use vstd::prelude::*;

use crate::comparer;
use crate::converter;
use crate::decimal::push_decimal;
use crate::text::{chars_of, push_str, str_is, string_from_chars};
use crate::types::Format;

verus! {

/// What the command line of a tool comes to: too few arguments, an argument that
/// is not a flag, the values of the flags, or a flag that ends the line without a
/// value, on which the tool stops.
pub enum ArgsVerdict<T> {
    Usage,
    Unknown(Seq<char>),
    Done(T),
    Aborted,
}

/// The command line of a tool, read: too few arguments, an argument that is not a
/// flag, the values of the flags, or a flag with no value after it.
#[derive(Debug)]
pub enum ArgsOutcome<T> {
    Usage,
    Unknown(String),
    Parsed(T),
    Aborted,
}

/// The values given to the conversion tool; a flag not given leaves its value empty.
#[derive(Debug)]
pub struct ConverterArgs {
    pub input: String,
    pub input_format: String,
    pub output_format: String,
}

/// The values given to the comparison tool; a flag not given leaves its value empty.
#[derive(Debug)]
pub struct ComparerArgs {
    pub file1: String,
    pub input_format1: String,
    pub file2: String,
    pub input_format2: String,
}

/// The flags of the conversion tool read from `args`, each taking the argument after
/// it as its value; a later flag overrides an earlier one.
pub open spec fn converter_scan(args: Seq<Seq<char>>, v: (Seq<char>, Seq<char>, Seq<char>)) -> ArgsVerdict<
    (Seq<char>, Seq<char>, Seq<char>),
>
    decreases args.len(),
{
    if args.len() == 0 {
        ArgsVerdict::Done(v)
    } else {
        let f = args[0];
        if f == "--input"@ || f == "--input-format"@ || f == "--output-format"@ {
            if args.len() < 2 {
                ArgsVerdict::Aborted
            } else {
                let next = if f == "--input"@ {
                    (args[1], v.1, v.2)
                } else if f == "--input-format"@ {
                    (v.0, args[1], v.2)
                } else {
                    (v.0, v.1, args[1])
                };
                converter_scan(args.skip(2), next)
            }
        } else {
            ArgsVerdict::Unknown(f)
        }
    }
}

/// The command line of the conversion tool, without the program's name: fewer than
/// six arguments ask for the usage.
pub open spec fn converter_args(args: Seq<Seq<char>>) -> ArgsVerdict<(Seq<char>, Seq<char>, Seq<char>)> {
    if args.len() < 6 {
        ArgsVerdict::Usage
    } else {
        converter_scan(args, (seq![], seq![], seq![]))
    }
}

/// The flags of the comparison tool read from `args` (see `converter_scan`).
pub open spec fn comparer_scan(
    args: Seq<Seq<char>>,
    v: (Seq<char>, Seq<char>, Seq<char>, Seq<char>),
) -> ArgsVerdict<(Seq<char>, Seq<char>, Seq<char>, Seq<char>)>
    decreases args.len(),
{
    if args.len() == 0 {
        ArgsVerdict::Done(v)
    } else {
        let f = args[0];
        if f == "--file1"@ || f == "--input-format1"@ || f == "--file2"@ || f
            == "--input-format2"@ {
            if args.len() < 2 {
                ArgsVerdict::Aborted
            } else {
                let next = if f == "--file1"@ {
                    (args[1], v.1, v.2, v.3)
                } else if f == "--input-format1"@ {
                    (v.0, args[1], v.2, v.3)
                } else if f == "--file2"@ {
                    (v.0, v.1, args[1], v.3)
                } else {
                    (v.0, v.1, v.2, args[1])
                };
                comparer_scan(args.skip(2), next)
            }
        } else {
            ArgsVerdict::Unknown(f)
        }
    }
}

/// The command line of the comparison tool, without the program's name: fewer than
/// eight arguments ask for the usage.
pub open spec fn comparer_args(args: Seq<Seq<char>>) -> ArgsVerdict<
    (Seq<char>, Seq<char>, Seq<char>, Seq<char>),
> {
    if args.len() < 8 {
        ArgsVerdict::Usage
    } else {
        comparer_scan(args, (seq![], seq![], seq![], seq![]))
    }
}

/// The character sequences held by strings.
pub open spec fn string_views(v: Seq<String>) -> Seq<Seq<char>> {
    v.map_values(|s: String| s@)
}

impl View for ConverterArgs {
    type V = (Seq<char>, Seq<char>, Seq<char>);

    open spec fn view(&self) -> (Seq<char>, Seq<char>, Seq<char>) {
        (self.input@, self.input_format@, self.output_format@)
    }
}

impl View for ComparerArgs {
    type V = (Seq<char>, Seq<char>, Seq<char>, Seq<char>);

    open spec fn view(&self) -> (Seq<char>, Seq<char>, Seq<char>, Seq<char>) {
        (self.file1@, self.input_format1@, self.file2@, self.input_format2@)
    }
}

impl<T: View> View for ArgsOutcome<T> {
    type V = ArgsVerdict<T::V>;

    open spec fn view(&self) -> ArgsVerdict<T::V> {
        match self {
            ArgsOutcome::Usage => ArgsVerdict::Usage,
            ArgsOutcome::Unknown(s) => ArgsVerdict::Unknown(s@),
            ArgsOutcome::Parsed(v) => ArgsVerdict::Done(v@),
            ArgsOutcome::Aborted => ArgsVerdict::Aborted,
        }
    }
}

/// Reads the command line of the conversion tool (see `converter_args`).
pub fn parse_converter_args(args: &Vec<String>) -> (r: ArgsOutcome<ConverterArgs>)
    ensures
        r@ == converter_args(string_views(args@)),
{
    let ghost sv = string_views(args@);
    if args.len() < 6 {
        return ArgsOutcome::Usage;
    }
    let mut v = ConverterArgs { input: String::new(), input_format: String::new(), output_format: String::new() };
    let mut i: usize = 0;
    assert(sv.skip(0) == sv);
    while i < args.len()
        invariant
            sv == string_views(args@),
            i <= args@.len(),
            converter_args(sv) == converter_scan(sv.skip(i as int), v@),
            args@.len() >= 6,
        decreases args@.len() - i,
    {
        let ghost rest = sv.skip(i as int);
        assert(rest[0] == args@[i as int]@);
        let f = args[i].as_str();
        let is_input = str_is(f, "--input");
        let is_input_format = str_is(f, "--input-format");
        let is_output_format = str_is(f, "--output-format");
        if !(is_input || is_input_format || is_output_format) {
            return ArgsOutcome::Unknown(args[i].clone());
        }
        if i + 1 >= args.len() {
            return ArgsOutcome::Aborted;
        }
        assert(rest[1] == args@[i + 1]@);
        assert(rest.skip(2) =~= sv.skip(i + 2));
        let value = args[i + 1].clone();
        if is_input {
            v.input = value;
        } else if is_input_format {
            v.input_format = value;
        } else {
            v.output_format = value;
        }
        i = i + 2;
    }
    assert(sv.skip(i as int).len() == 0);
    ArgsOutcome::Parsed(v)
}

/// Reads the command line of the comparison tool (see `comparer_args`).
pub fn parse_comparer_args(args: &Vec<String>) -> (r: ArgsOutcome<ComparerArgs>)
    ensures
        r@ == comparer_args(string_views(args@)),
{
    let ghost sv = string_views(args@);
    if args.len() < 8 {
        return ArgsOutcome::Usage;
    }
    let mut v = ComparerArgs {
        file1: String::new(),
        input_format1: String::new(),
        file2: String::new(),
        input_format2: String::new(),
    };
    let mut i: usize = 0;
    assert(sv.skip(0) == sv);
    while i < args.len()
        invariant
            sv == string_views(args@),
            i <= args@.len(),
            comparer_args(sv) == comparer_scan(sv.skip(i as int), v@),
            args@.len() >= 8,
        decreases args@.len() - i,
    {
        let ghost rest = sv.skip(i as int);
        assert(rest[0] == args@[i as int]@);
        let f = args[i].as_str();
        let is_file1 = str_is(f, "--file1");
        let is_format1 = str_is(f, "--input-format1");
        let is_file2 = str_is(f, "--file2");
        let is_format2 = str_is(f, "--input-format2");
        if !(is_file1 || is_format1 || is_file2 || is_format2) {
            return ArgsOutcome::Unknown(args[i].clone());
        }
        if i + 1 >= args.len() {
            return ArgsOutcome::Aborted;
        }
        assert(rest[1] == args@[i + 1]@);
        assert(rest.skip(2) =~= sv.skip(i + 2));
        let value = args[i + 1].clone();
        if is_file1 {
            v.file1 = value;
        } else if is_format1 {
            v.input_format1 = value;
        } else if is_file2 {
            v.file2 = value;
        } else {
            v.input_format2 = value;
        }
        i = i + 2;
    }
    assert(sv.skip(i as int).len() == 0);
    ArgsOutcome::Parsed(v)
}

/// The text shown for a format name that is not known.
pub open spec fn unknown_format_message() -> Seq<char> {
    "неизвестный формат "@ + comparer::unknown_format_text()
}

/// The text shown for an input file that does not exist.
pub open spec fn missing_file_message(path: Seq<char>) -> Seq<char> {
    "файл "@ + path + " не существует"@
}

/// What the conversion tool makes of its flags' values, given whether the input
/// file exists: the input and output formats, or the text of the first problem.
pub open spec fn converter_plan(v: (Seq<char>, Seq<char>, Seq<char>), input_exists: bool) -> Result<
    (Format, Format),
    Seq<char>,
> {
    if v.0.len() == 0 {
        Err("не указан входной файл"@)
    } else if !input_exists {
        Err(missing_file_message(v.0))
    } else if v.1.len() == 0 {
        Err("не указан входной формат"@)
    } else if v.2.len() == 0 {
        Err("не указан выходной формат"@)
    } else {
        match comparer::format_of_name(v.1) {
            None => Err(unknown_format_message()),
            Some(a) => match comparer::format_of_name(v.2) {
                None => Err(unknown_format_message()),
                Some(b) => Ok((a, b)),
            },
        }
    }
}

/// What the comparison tool makes of its flags' values, given whether each file
/// exists: the two formats, or the text of the first problem.
pub open spec fn comparer_plan(
    v: (Seq<char>, Seq<char>, Seq<char>, Seq<char>),
    exists1: bool,
    exists2: bool,
) -> Result<(Format, Format), Seq<char>> {
    if v.0.len() == 0 {
        Err("не указан входной файл 1"@)
    } else if !exists1 {
        Err(missing_file_message(v.0))
    } else if v.1.len() == 0 {
        Err("не указан входной формат 1"@)
    } else if v.2.len() == 0 {
        Err("не указан входной файл 2"@)
    } else if !exists2 {
        Err(missing_file_message(v.2))
    } else if v.3.len() == 0 {
        Err("не указан входной формат 2"@)
    } else {
        match comparer::format_of_name(v.1) {
            None => Err(unknown_format_message()),
            Some(a) => match comparer::format_of_name(v.3) {
                None => Err(unknown_format_message()),
                Some(b) => Ok((a, b)),
            },
        }
    }
}

/// A result with its message taken by its view.
pub open spec fn plan_view(r: Result<(Format, Format), String>) -> Result<(Format, Format), Seq<char>> {
    match r {
        Ok(p) => Ok(p),
        Err(m) => Err(m@),
    }
}

fn missing_file(path: &String) -> (r: String)
    ensures
        r@ == missing_file_message(path@),
{
    let mut t = chars_of("файл ");
    push_str(&mut t, path.as_str());
    push_str(&mut t, " не существует");
    string_from_chars(t.as_slice())
}

fn format_named(name: &String) -> (r: Result<Format, String>)
    ensures
        match comparer::format_of_name(name@) {
            Some(f) => r == Ok::<Format, String>(f),
            None => r matches Err(m) && m@ == unknown_format_message(),
        },
{
    match converter::map_format(name.as_str()) {
        Ok(f) => Ok(f),
        Err(e) => Err(e.message()),
    }
}

/// The formats for the conversion tool, or the text of the first problem with its
/// flags (see `converter_plan`).
pub fn converter_settings(args: &ConverterArgs, input_exists: bool) -> (r: Result<(Format, Format), String>)
    ensures
        plan_view(r) == converter_plan(args@, input_exists),
{
    if args.input.as_str().is_empty() {
        return Err("не указан входной файл".to_owned());
    }
    if !input_exists {
        return Err(missing_file(&args.input));
    }
    if args.input_format.as_str().is_empty() {
        return Err("не указан входной формат".to_owned());
    }
    if args.output_format.as_str().is_empty() {
        return Err("не указан выходной формат".to_owned());
    }
    let a = format_named(&args.input_format)?;
    let b = format_named(&args.output_format)?;
    Ok((a, b))
}

/// The formats for the comparison tool, or the text of the first problem with its
/// flags (see `comparer_plan`).
pub fn comparer_settings(args: &ComparerArgs, exists1: bool, exists2: bool) -> (r: Result<
    (Format, Format),
    String,
>)
    ensures
        plan_view(r) == comparer_plan(args@, exists1, exists2),
{
    if args.file1.as_str().is_empty() {
        return Err("не указан входной файл 1".to_owned());
    }
    if !exists1 {
        return Err(missing_file(&args.file1));
    }
    if args.input_format1.as_str().is_empty() {
        return Err("не указан входной формат 1".to_owned());
    }
    if args.file2.as_str().is_empty() {
        return Err("не указан входной файл 2".to_owned());
    }
    if !exists2 {
        return Err(missing_file(&args.file2));
    }
    if args.input_format2.as_str().is_empty() {
        return Err("не указан входной формат 2".to_owned());
    }
    let a = format_named(&args.input_format1)?;
    let b = format_named(&args.input_format2)?;
    Ok((a, b))
}

/// The line that reports one pair of differing identifiers.
pub open spec fn id_pair_line(p: (u64, u64)) -> Seq<char> {
    crate::decimal::decimal(p.0 as nat) + " "@ + crate::decimal::decimal(p.1 as nat)
}

/// What the comparison tool reports about two files: whether the report goes to the
/// standard output (the files hold the same records), and its lines.
pub open spec fn comparison_report(f1: Seq<char>, f2: Seq<char>, c: (bool, Option<Seq<(u64, u64)>>)) -> (
    bool,
    Seq<Seq<char>>,
) {
    if c.0 {
        (true, seq!["# Вывод: транзакции в файлах '"@ + f1 + "' и '"@ + f2 + "' идентичны"@])
    } else {
        match c.1 {
            Some(ids) => (
                false,
                seq![
                    "файлы "@ + f1 + " и "@ + f2 + " имеют разные записи"@,
                    "TX_ID записей, которые различаются"@,
                ] + ids.map_values(|p: (u64, u64)| id_pair_line(p)),
            ),
            None => (false, seq!["файлы "@ + f1 + " и "@ + f2 + " имеют разное количество записей"@]),
        }
    }
}

fn text_of(parts: &Vec<char>) -> (r: String)
    ensures
        r@ == parts@,
{
    string_from_chars(parts.as_slice())
}

/// The report of the comparison tool on the result of `are_transactions_equal` (see
/// `comparison_report`).
pub fn report_comparison(file1: &str, file2: &str, result: &(bool, Option<Vec<(u64, u64)>>)) -> (r: (
    bool,
    Vec<String>,
))
    ensures
        r.0 == comparison_report(file1@, file2@, comparer::comparison_view(*result)).0,
        string_views(r.1@) == comparison_report(file1@, file2@, comparer::comparison_view(*result)).1,
{
    let mut lines: Vec<String> = Vec::new();
    if result.0 {
        let mut t = chars_of("# Вывод: транзакции в файлах '");
        push_str(&mut t, file1);
        push_str(&mut t, "' и '");
        push_str(&mut t, file2);
        push_str(&mut t, "' идентичны");
        lines.push(text_of(&t));
        assert(string_views(lines@) =~= comparison_report(file1@, file2@, comparer::comparison_view(*result)).1);
        return (true, lines);
    }
    match &result.1 {
        Some(ids) => {
            let mut t = chars_of("файлы ");
            push_str(&mut t, file1);
            push_str(&mut t, " и ");
            push_str(&mut t, file2);
            push_str(&mut t, " имеют разные записи");
            lines.push(text_of(&t));
            lines.push("TX_ID записей, которые различаются".to_owned());
            let ghost head = string_views(lines@);
            let ghost pairs = ids@.map_values(|p: (u64, u64)| id_pair_line(p));
            assert(pairs.take(0) =~= Seq::<Seq<char>>::empty());
            assert(string_views(lines@) =~= head + pairs.take(0));
            let mut k: usize = 0;
            while k < ids.len()
                invariant
                    pairs == ids@.map_values(|p: (u64, u64)| id_pair_line(p)),
                    k <= ids@.len(),
                    string_views(lines@) == head + pairs.take(k as int),
                decreases ids@.len() - k,
            {
                let (a, b) = ids[k];
                let mut l: Vec<char> = Vec::new();
                push_decimal(&mut l, a);
                push_str(&mut l, " ");
                push_decimal(&mut l, b);
                let ghost before = string_views(lines@);
                lines.push(text_of(&l));
                assert(pairs[k as int] == l@);
                assert(pairs.take(k + 1) =~= pairs.take(k as int).push(pairs[k as int]));
                assert(string_views(lines@) =~= before.push(l@));
                k = k + 1;
            }
            assert(pairs.take(k as int) =~= pairs);
            (false, lines)
        },
        None => {
            let mut t = chars_of("файлы ");
            push_str(&mut t, file1);
            push_str(&mut t, " и ");
            push_str(&mut t, file2);
            push_str(&mut t, " имеют разное количество записей");
            lines.push(text_of(&t));
            assert(string_views(lines@) =~= comparison_report(file1@, file2@, comparer::comparison_view(*result)).1);
            (false, lines)
        },
    }
}

} // verus!
