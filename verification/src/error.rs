//! The errors of an export.

use vstd::prelude::*;

use crate::text;

verus! {

/// An error of an export.
#[derive(Debug, Clone, PartialEq, Eq)]
pub enum ExportError {
    Config(String),
    FileNotFound(String),
    CommandFailed { code: i32, message: String },
    Io(String),
    Json(String),
    PlatformNotFound(String),
    IbcmdNotFound(String),
    /// An error of the database server.
    Sql(String),
    /// A stored value that could not be unpacked: an unknown header, a broken
    /// stream, a checksum that does not match.
    ValueStorage(String),
    /// A processor that is registered without a file: nothing is stored of it.
    Empty,
}

/// An error of an export, by its texts.
pub enum ErrorView {
    Config(Seq<char>),
    FileNotFound(Seq<char>),
    CommandFailed(int, Seq<char>),
    Io(Seq<char>),
    Json(Seq<char>),
    PlatformNotFound(Seq<char>),
    IbcmdNotFound(Seq<char>),
    Sql(Seq<char>),
    ValueStorage(Seq<char>),
    Empty,
}

impl View for ExportError {
    type V = ErrorView;

    open spec fn view(&self) -> ErrorView {
        match *self {
            ExportError::Config(s) => ErrorView::Config(s@),
            ExportError::FileNotFound(s) => ErrorView::FileNotFound(s@),
            ExportError::CommandFailed { code, message } => ErrorView::CommandFailed(
                code as int,
                message@,
            ),
            ExportError::Io(s) => ErrorView::Io(s@),
            ExportError::Json(s) => ErrorView::Json(s@),
            ExportError::PlatformNotFound(s) => ErrorView::PlatformNotFound(s@),
            ExportError::IbcmdNotFound(s) => ErrorView::IbcmdNotFound(s@),
            ExportError::Sql(s) => ErrorView::Sql(s@),
            ExportError::ValueStorage(s) => ErrorView::ValueStorage(s@),
            ExportError::Empty => ErrorView::Empty,
        }
    }
}

/// The text of an error.
pub open spec fn error_text(e: ErrorView) -> Seq<char> {
    match e {
        ErrorView::Config(s) => "Ошибка конфигурации: "@ + s,
        ErrorView::FileNotFound(s) => "Файл не найден: "@ + s,
        ErrorView::CommandFailed(code, s) => "Ошибка выполнения команды 1С (код "@ + text::dec_int(
            code,
        ) + "): "@ + s,
        ErrorView::Io(s) => "Ошибка ввода-вывода: "@ + s,
        ErrorView::Json(s) => "Ошибка JSON: "@ + s,
        ErrorView::PlatformNotFound(s) => "Платформа 1С не найдена: "@ + s,
        ErrorView::IbcmdNotFound(s) => "IBCMD не найден: "@ + s,
        ErrorView::Sql(s) => "Ошибка MSSQL: "@ + s,
        ErrorView::ValueStorage(s) => "Ошибка распаковки ХранилищаОбработки: "@ + s,
        ErrorView::Empty => "STORHDR marker: обработка зарегистрирована без .epf-файла (пустое хранилище)"@,
    }
}

/// A prefix followed by a text.
fn prefixed(prefix: &str, s: &str) -> (r: String)
    ensures
        r@ == prefix@ + s@,
{
    let mut m = prefix.to_owned();
    m.append(s);
    m
}

impl ExportError {
    /// The text of the error.
    pub fn message(&self) -> (r: String)
        ensures
            r@ == error_text(self@),
    {
        match self {
            ExportError::Config(s) => prefixed("Ошибка конфигурации: ", s),
            ExportError::FileNotFound(s) => prefixed("Файл не найден: ", s),
            ExportError::CommandFailed { code, message } => {
                let mut m = "Ошибка выполнения команды 1С (код ".to_owned();
                let number = text::dec_int_of(*code as i64);
                m.append(&number);
                m.append("): ");
                m.append(message);
                m
            },
            ExportError::Io(s) => prefixed("Ошибка ввода-вывода: ", s),
            ExportError::Json(s) => prefixed("Ошибка JSON: ", s),
            ExportError::PlatformNotFound(s) => prefixed("Платформа 1С не найдена: ", s),
            ExportError::IbcmdNotFound(s) => prefixed("IBCMD не найден: ", s),
            ExportError::Sql(s) => prefixed("Ошибка MSSQL: ", s),
            ExportError::ValueStorage(s) => prefixed("Ошибка распаковки ХранилищаОбработки: ", s),
            ExportError::Empty => "STORHDR marker: обработка зарегистрирована без .epf-файла (пустое хранилище)".to_owned(),
        }
    }
}

// Laws.

/// Every error tells its kind and what it is about.
pub proof fn errors_tell_their_kind(s: Seq<char>, code: int)
    ensures
        error_text(ErrorView::Config(s)) == "Ошибка конфигурации: "@ + s,
        error_text(ErrorView::FileNotFound(s)) == "Файл не найден: "@ + s,
        error_text(ErrorView::CommandFailed(code, s)) == "Ошибка выполнения команды 1С (код "@
            + text::dec_int(code) + "): "@ + s,
        error_text(ErrorView::Io(s)) == "Ошибка ввода-вывода: "@ + s,
        error_text(ErrorView::Json(s)) == "Ошибка JSON: "@ + s,
        error_text(ErrorView::PlatformNotFound(s)) == "Платформа 1С не найдена: "@ + s,
        error_text(ErrorView::IbcmdNotFound(s)) == "IBCMD не найден: "@ + s,
        error_text(ErrorView::Sql(s)) == "Ошибка MSSQL: "@ + s,
        error_text(ErrorView::ValueStorage(s)) == "Ошибка распаковки ХранилищаОбработки: "@ + s,
        error_text(ErrorView::Empty)
            == "STORHDR marker: обработка зарегистрирована без .epf-файла (пустое хранилище)"@,
{
}

} // verus!
