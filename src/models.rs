//! Requests, responses and errors of the service's operations, and the
//! trait that their handlers share.

use vstd::prelude::*;

verus! {

/// A handler of one kind of request.
pub trait McpHandler {
    type Request;
    type Response;
    type Error;

    /// Whether `r` is a right answer to `req`.
    spec fn answers(&self, req: Self::Request, r: Result<Self::Response, Self::Error>) -> bool;

    fn handle(&self, req: Self::Request) -> (r: Result<Self::Response, Self::Error>)
        ensures
            self.answers(req, r),
    ;
}

pub struct EchoRequest {
    pub message: String,
}

pub struct EchoResponse {
    pub echoed: String,
}

#[derive(Debug)]
pub enum EchoError {
    EmptyMessage,
}

/// Hands a message back unchanged; an empty message is refused.
pub struct EchoHandler;

impl McpHandler for EchoHandler {
    type Request = EchoRequest;
    type Response = EchoResponse;
    type Error = EchoError;

    open spec fn answers(&self, req: EchoRequest, r: Result<EchoResponse, EchoError>) -> bool {
        if req.message@.len() == 0 {
            r matches Err(EchoError::EmptyMessage)
        } else {
            r matches Ok(resp) && resp.echoed@ == req.message@
        }
    }

    fn handle(&self, req: EchoRequest) -> (r: Result<EchoResponse, EchoError>) {
        if req.message.as_str().is_empty() {
            Err(EchoError::EmptyMessage)
        } else {
            Ok(EchoResponse { echoed: req.message })
        }
    }
}

pub struct ListSpreadsheetsRequest;

pub struct ListSpreadsheetsResponse {
    pub spreadsheets: Vec<String>,
}

pub struct CreateSpreadsheetRequest {
    pub title: String,
}

pub struct CreateSpreadsheetResponse {
    pub id: String,
}

#[derive(Debug)]
pub enum SpreadsheetError {
    Api(String),
}

pub struct GetSheetDataRequest {
    pub spreadsheet_id: String,
    /// An A1 range such as `Sheet1!A1:C10`.
    pub range: String,
}

pub struct GetSheetDataResponse {
    pub values: Vec<Vec<String>>,
}

pub struct SetSheetDataRequest {
    pub spreadsheet_id: String,
    pub range: String,
    pub values: Vec<Vec<String>>,
}

pub struct SetSheetDataResponse {
    pub updated_cells: usize,
}

pub struct BatchGetSheetDataRequest {
    pub spreadsheet_id: String,
    pub ranges: Vec<String>,
}

pub struct BatchGetSheetDataResponse {
    /// The rows of each range, in the order of the ranges.
    pub values: Vec<Vec<Vec<String>>>,
}

pub struct BatchSetSheetDataRequest {
    pub spreadsheet_id: String,
    /// Each range with the rows to write there.
    pub updates: Vec<(String, Vec<Vec<String>>)>,
}

pub struct BatchSetSheetDataResponse {
    pub updated_cells: usize,
}

pub struct ListDriveFilesRequest;

pub struct ListDriveFilesResponse {
    pub files: Vec<String>,
}

pub struct GetDriveFileMetadataRequest {
    pub file_id: String,
}

pub struct GetDriveFileMetadataResponse {
    pub name: String,
    pub mime_type: String,
    pub size: Option<u64>,
}

#[derive(Debug)]
pub enum ResourceType {
    Spreadsheet,
    DriveFile,
}

pub struct ListPermissionsRequest {
    pub resource_id: String,
    pub resource_type: ResourceType,
}

pub struct PermissionInfo {
    pub id: String,
    pub email: Option<String>,
    pub role: String,
    /// `user`, `group`, `domain` or `anyone`.
    pub type_: String,
}

pub struct ListPermissionsResponse {
    pub permissions: Vec<PermissionInfo>,
}

pub struct AddPermissionRequest {
    pub resource_id: String,
    pub resource_type: ResourceType,
    pub email: String,
    /// `reader`, `writer` or `owner`.
    pub role: String,
    pub type_: String,
}

pub struct AddPermissionResponse {
    pub permission_id: String,
}

pub struct RemovePermissionRequest {
    pub resource_id: String,
    pub resource_type: ResourceType,
    pub permission_id: String,
}

pub struct RemovePermissionResponse {
    pub success: bool,
}

pub struct GetDocumentRequest {
    pub document_id: String,
}

pub struct GetDocumentResponse {
    pub title: String,
    /// The document's text.
    pub body: String,
}

pub struct CreateDocumentRequest {
    pub title: String,
}

pub struct CreateDocumentResponse {
    pub document_id: String,
}

pub struct AppendTextRequest {
    pub document_id: String,
    pub text: String,
}

pub struct AppendTextResponse {
    pub success: bool,
}

#[derive(Debug)]
pub enum DocsError {
    Api(String),
}

pub struct ListDocsRequest {}

pub struct ListDocsResponse {
    pub docs: Vec<DocInfo>,
}

pub struct DocInfo {
    pub id: String,
    pub title: String,
}

pub struct GetCalendarEventRequest {
    pub calendar_id: String,
    pub event_id: String,
}

pub struct GetCalendarEventResponse {
    pub id: String,
    pub summary: Option<String>,
    pub description: Option<String>,
    pub start: Option<String>,
    pub end: Option<String>,
}

pub struct CreateCalendarEventRequest {
    pub calendar_id: String,
    pub summary: String,
    pub description: Option<String>,
    /// An RFC 3339 time.
    pub start: String,
    pub end: String,
}

pub struct CreateCalendarEventResponse {
    pub id: String,
}

pub struct ListCalendarEventsRequest {
    pub calendar_id: String,
}

pub struct CalendarEventInfo {
    pub id: String,
    pub summary: Option<String>,
    pub start: Option<String>,
    pub end: Option<String>,
}

pub struct ListCalendarEventsResponse {
    pub events: Vec<CalendarEventInfo>,
}

#[derive(Debug)]
pub enum CalendarError {
    Api(String),
}

/// The answer to one event of the streaming interface.
pub struct SeeResponse<T> {
    pub ok: bool,
    pub data: Option<T>,
    pub error: Option<String>,
}

} // verus!
