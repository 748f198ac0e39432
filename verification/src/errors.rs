use vstd::prelude::*;

verus! {

/// The errors of the value and model operations.
#[derive(Debug)]
pub enum ModelError {
    NotFound(String),
    InvalidData(String),
    SystemError(String),
    ActorError(String),
}

/// What a `ModelError` says: its kind and its message.
pub enum ModelErrorView {
    NotFound(Seq<char>),
    InvalidData(Seq<char>),
    SystemError(Seq<char>),
    ActorError(Seq<char>),
}

impl View for ModelError {
    type V = ModelErrorView;

    open spec fn view(&self) -> ModelErrorView {
        match self {
            ModelError::NotFound(m) => ModelErrorView::NotFound(m@),
            ModelError::InvalidData(m) => ModelErrorView::InvalidData(m@),
            ModelError::SystemError(m) => ModelErrorView::SystemError(m@),
            ModelError::ActorError(m) => ModelErrorView::ActorError(m@),
        }
    }
}

impl Clone for ModelError {
    fn clone(&self) -> (r: Self)
        ensures
            r@ == self@,
    {
        match self {
            ModelError::NotFound(m) => ModelError::NotFound(m.clone()),
            ModelError::InvalidData(m) => ModelError::InvalidData(m.clone()),
            ModelError::SystemError(m) => ModelError::SystemError(m.clone()),
            ModelError::ActorError(m) => ModelError::ActorError(m.clone()),
        }
    }
}

/// The result of the value and model operations.
pub type ModelResult<T> = Result<T, ModelError>;

impl ModelErrorView {
    /// The text that describes the error.
    pub open spec fn text(self) -> Seq<char> {
        match self {
            ModelErrorView::NotFound(m) => "Record not found: "@ + m,
            ModelErrorView::InvalidData(m) => "Invalid data: "@ + m,
            ModelErrorView::SystemError(m) => "System error: "@ + m,
            ModelErrorView::ActorError(m) => "Actor error: "@ + m,
        }
    }
}

impl ModelError {
    /// The invalid-data error with this message.
    pub fn invalid_data(message: &str) -> (r: ModelError)
        ensures
            r@ == ModelErrorView::InvalidData(message@),
    {
        ModelError::InvalidData(String::from_str(message))
    }

    /// The not-found error for this id.
    pub fn not_found(id: &str) -> (r: ModelError)
        ensures
            r@ == ModelErrorView::NotFound(id@),
    {
        ModelError::NotFound(String::from_str(id))
    }

    /// The text that describes the error, such as `Record not found: u1`.
    pub fn to_string(&self) -> (r: String)
        ensures
            r@ == self@.text(),
    {
        let (mut out, m) = match self {
            ModelError::NotFound(m) => (String::from_str("Record not found: "), m),
            ModelError::InvalidData(m) => (String::from_str("Invalid data: "), m),
            ModelError::SystemError(m) => (String::from_str("System error: "), m),
            ModelError::ActorError(m) => (String::from_str("Actor error: "), m),
        };
        out.append(m.as_str());
        out
    }
}

/// The errors of the dynamic value operations.
#[derive(Debug)]
pub enum DynamicError {
    TypeMismatch(String),
    InvalidNumber(String),
    PathNotFound(String),
    InvalidPath(String),
    SerializationError(String),
}

/// What a `DynamicError` says: its kind and its message.
pub enum DynamicErrorView {
    TypeMismatch(Seq<char>),
    InvalidNumber(Seq<char>),
    PathNotFound(Seq<char>),
    InvalidPath(Seq<char>),
    SerializationError(Seq<char>),
}

impl View for DynamicError {
    type V = DynamicErrorView;

    open spec fn view(&self) -> DynamicErrorView {
        match self {
            DynamicError::TypeMismatch(m) => DynamicErrorView::TypeMismatch(m@),
            DynamicError::InvalidNumber(m) => DynamicErrorView::InvalidNumber(m@),
            DynamicError::PathNotFound(m) => DynamicErrorView::PathNotFound(m@),
            DynamicError::InvalidPath(m) => DynamicErrorView::InvalidPath(m@),
            DynamicError::SerializationError(m) => DynamicErrorView::SerializationError(m@),
        }
    }
}

/// The result of the dynamic value operations.
pub type DynamicResult<T> = Result<T, DynamicError>;

} // verus!
