//! Text buffer engines for a small editing service: a line-array buffer
//! addressed by row/column points, and a gap buffer addressed by flat
//! character offsets, together with the request/response model that the
//! service dispatches onto them.

mod chars;
pub mod actions;
pub mod buffer;
pub mod gap_buffer;
pub mod point;

pub use actions::{
    method_of, resp_err_code, ConnRespStruct, ConnectReq, Editor, InsertAtPtReq, Method, Resp, RespErr, RespOk,
};
pub use buffer::{BufErr, Buffer, IntoLine, Line};
pub use gap_buffer::{GapBuffer, GbErr};
pub use point::Point;
