//! USP Messages: the header and the request, response or error body that a
//! record carries, with their wire encoding.
use vstd::prelude::*;
use crate::error::UspError;
use crate::pb::{
    all_len, all_msgs, child_fields, collect_children, collect_strings, dec, enc, find_last_fixed32,
    find_last_len, find_last_varint, find_opt_msg, fixed32_f, fixed32_field, fview, last_among,
    last_fixed32, last_len, last_varint, lemma_absent, lemma_child_at, lemma_children_round,
    lemma_last_at, lemma_skip, lemma_str_round, lemma_strings_round, len_f, msg_field, nums_ok,
    opt_msg, opt_str, opt_string, opt_u32, opt_u64, push_children, push_strings, str_f, str_field,
    str_fields, strs_of, varint_f, varint_field, view_seq, Proto,
};
use crate::wire::{fields_bytes, lemma_payload_within, valid_num, Field, FieldV, Wire};

verus! {

pub open spec fn bool_of(v: u64) -> bool {
    v != 0
}

pub open spec fn bool_code(b: bool) -> u64 {
    if b {
        1
    } else {
        0
    }
}

fn bool_to_code(b: bool) -> (r: u64)
    ensures
        r == bool_code(b),
{
    if b {
        1
    } else {
        0
    }
}

fn opt_varint(o: Option<u64>) -> (r: u64)
    ensures
        r == opt_u64(o),
{
    match o {
        Some(v) => v,
        None => 0,
    }
}

fn opt_fixed32(o: Option<u32>) -> (r: u32)
    ensures
        r == opt_u32(o),
{
    match o {
        Some(v) => v,
        None => 0,
    }
}

/// The last length-delimited field whose number is in `nums`.
fn find_last_among<'a>(fs: &'a Vec<Field>, nums: &[u64]) -> (r: Option<&'a Field>)
    ensures
        match last_among(fview(fs@), nums@) {
            Some(f) => r matches Some(x) && x@ == f,
            None => r is None,
        },
        r matches Some(x) ==> x.val is Len,
{
    let mut j: usize = fs.len();
    assert(fview(fs@).take(fs@.len() as int) =~= fview(fs@));
    while j > 0
        invariant
            j <= fs@.len(),
            last_among(fview(fs@), nums@) == last_among(fview(fs@).take(j as int), nums@),
        decreases j,
    {
        proof {
            assert(fview(fs@).take(j as int).drop_last() =~= fview(fs@).take(j - 1));
            assert(fview(fs@).take(j as int).last() == fs@[j - 1]@);
        }
        let f = &fs[j - 1];
        let mut k: usize = 0;
        let mut found = false;
        while k < nums.len()
            invariant
                k <= nums@.len(),
                found == nums@.take(k as int).contains(f.num),
            decreases nums@.len() - k,
        {
            proof {
                assert(nums@.take(k + 1) =~= nums@.take(k as int).push(nums@[k as int]));
            }
            if nums[k] == f.num {
                found = true;
            }
            proof {
                if found && !nums@.take(k as int).contains(f.num) {
                    assert(nums@.take(k + 1)[k as int] == f.num);
                }
            }
            k = k + 1;
        }
        assert(nums@.take(k as int) =~= nums@);
        if found {
            match &f.val {
                Wire::Len(_) => {
                    return Some(f);
                },
                _ => {},
            }
        }
        j = j - 1;
    }
    assert(fview(fs@).take(0) =~= Seq::<FieldV>::empty());
    None
}

// ---------------------------------------------------------------- pairs

/// One entry of a string-to-string map.
impl Proto for (String, String) {
    open spec fn fields_of(v: (Seq<char>, Seq<char>)) -> Seq<FieldV> {
        seq![str_f(1, v.0), str_f(2, v.1)]
    }

    open spec fn from_fields(fs: Seq<FieldV>) -> Option<(Seq<char>, Seq<char>)> {
        match (opt_str(last_len(fs, 1)), opt_str(last_len(fs, 2))) {
            (Some(k), Some(v)) => Some((k, v)),
            _ => None,
        }
    }

    fn to_fields(&self) -> (r: Vec<Field>) {
        let mut fs: Vec<Field> = Vec::new();
        fs.push(str_field(1, self.0.as_str()));
        fs.push(str_field(2, self.1.as_str()));
        assert(fview(fs@) =~= Self::fields_of(self@));
        fs
    }

    fn from_field_list(fs: &Vec<Field>) -> (r: Option<Self>) {
        let k = opt_string(find_last_len(fs, 1));
        let v = opt_string(find_last_len(fs, 2));
        match (k, v) {
            (Some(k), Some(v)) => Some((k, v)),
            _ => None,
        }
    }

    proof fn lemma_nums(v: (Seq<char>, Seq<char>)) {
    }

    proof fn lemma_round(v: (Seq<char>, Seq<char>)) {
        let fs = Self::fields_of(v);
        lemma_last_at(fs, 0, 1);
        lemma_last_at(fs, 1, 2);
        lemma_str_round(v.0);
        lemma_str_round(v.1);
    }
}

// ---------------------------------------------------------------- header

pub struct HeaderV {
    pub msg_id: Seq<char>,
    pub msg_type: u64,
}

/// A message's identifier and type code.
pub struct Header {
    pub msg_id: String,
    pub msg_type: u64,
}

impl View for Header {
    type V = HeaderV;

    open spec fn view(&self) -> HeaderV {
        HeaderV { msg_id: self.msg_id@, msg_type: self.msg_type }
    }
}

impl Proto for Header {
    open spec fn fields_of(v: HeaderV) -> Seq<FieldV> {
        seq![str_f(1, v.msg_id), varint_f(2, v.msg_type)]
    }

    open spec fn from_fields(fs: Seq<FieldV>) -> Option<HeaderV> {
        match opt_str(last_len(fs, 1)) {
            Some(msg_id) => Some(HeaderV { msg_id, msg_type: opt_u64(last_varint(fs, 2)) }),
            None => None,
        }
    }

    fn to_fields(&self) -> (r: Vec<Field>) {
        let mut fs: Vec<Field> = Vec::new();
        fs.push(str_field(1, self.msg_id.as_str()));
        fs.push(varint_field(2, self.msg_type));
        assert(fview(fs@) =~= Self::fields_of(self@));
        fs
    }

    fn from_field_list(fs: &Vec<Field>) -> (r: Option<Self>) {
        match opt_string(find_last_len(fs, 1)) {
            Some(msg_id) => Some(Header { msg_id, msg_type: opt_varint(find_last_varint(fs, 2)) }),
            None => None,
        }
    }

    proof fn lemma_nums(v: HeaderV) {
    }

    proof fn lemma_round(v: HeaderV) {
        let fs = Self::fields_of(v);
        lemma_last_at(fs, 0, 1);
        lemma_last_at(fs, 1, 2);
        lemma_str_round(v.msg_id);
    }
}

// ---------------------------------------------------------------- error

pub struct ErrorV {
    pub err_code: u32,
    pub err_msg: Seq<char>,
}

/// An error reply: a code and a message. Per-parameter errors are never
/// written.
pub struct ErrorMsg {
    pub err_code: u32,
    pub err_msg: String,
}

impl View for ErrorMsg {
    type V = ErrorV;

    open spec fn view(&self) -> ErrorV {
        ErrorV { err_code: self.err_code, err_msg: self.err_msg@ }
    }
}

impl Proto for ErrorMsg {
    open spec fn fields_of(v: ErrorV) -> Seq<FieldV> {
        seq![fixed32_f(1, v.err_code), str_f(2, v.err_msg)]
    }

    open spec fn from_fields(fs: Seq<FieldV>) -> Option<ErrorV> {
        match opt_str(last_len(fs, 2)) {
            Some(err_msg) => Some(ErrorV { err_code: opt_u32(last_fixed32(fs, 1)), err_msg }),
            None => None,
        }
    }

    fn to_fields(&self) -> (r: Vec<Field>) {
        let mut fs: Vec<Field> = Vec::new();
        fs.push(fixed32_field(1, self.err_code));
        fs.push(str_field(2, self.err_msg.as_str()));
        assert(fview(fs@) =~= Self::fields_of(self@));
        fs
    }

    fn from_field_list(fs: &Vec<Field>) -> (r: Option<Self>) {
        match opt_string(find_last_len(fs, 2)) {
            Some(err_msg) => Some(ErrorMsg { err_code: opt_fixed32(find_last_fixed32(fs, 1)), err_msg }),
            None => None,
        }
    }

    proof fn lemma_nums(v: ErrorV) {
    }

    proof fn lemma_round(v: ErrorV) {
        let fs = Self::fields_of(v);
        lemma_last_at(fs, 0, 1);
        lemma_last_at(fs, 1, 2);
        lemma_str_round(v.err_msg);
    }
}

// ---------------------------------------------------------------- get

pub struct GetV {
    pub param_paths: Seq<Seq<char>>,
    pub max_depth: u32,
}

/// A request for the values under some paths.
pub struct Get {
    pub param_paths: Vec<String>,
    pub max_depth: u32,
}

impl View for Get {
    type V = GetV;

    open spec fn view(&self) -> GetV {
        GetV { param_paths: view_seq(self.param_paths@), max_depth: self.max_depth }
    }
}

impl Proto for Get {
    open spec fn fields_of(v: GetV) -> Seq<FieldV> {
        seq![fixed32_f(2, v.max_depth)] + str_fields(1, v.param_paths)
    }

    open spec fn from_fields(fs: Seq<FieldV>) -> Option<GetV> {
        match strs_of(all_len(fs, 1)) {
            Some(param_paths) => Some(GetV { param_paths, max_depth: opt_u32(last_fixed32(fs, 2)) }),
            None => None,
        }
    }

    fn to_fields(&self) -> (r: Vec<Field>) {
        let mut fs: Vec<Field> = Vec::new();
        fs.push(fixed32_field(2, self.max_depth));
        assert(fview(fs@) =~= seq![fixed32_f(2, self.max_depth)]);
        push_strings(&mut fs, 1, &self.param_paths);
        fs
    }

    fn from_field_list(fs: &Vec<Field>) -> (r: Option<Self>) {
        match collect_strings(fs, 1) {
            Some(param_paths) => Some(Get { param_paths, max_depth: opt_fixed32(find_last_fixed32(fs, 2)) }),
            None => None,
        }
    }

    proof fn lemma_nums(v: GetV) {
        let fs = Self::fields_of(v);
        assert forall|i: int| 0 <= i < fs.len() implies crate::wire::valid_num(#[trigger] fs[i].num) by {
            if i > 0 {
                assert(fs[i] == str_f(1, v.param_paths[i - 1]));
            }
        }
    }

    proof fn lemma_round(v: GetV) {
        let head = seq![fixed32_f(2, v.max_depth)];
        let tail = str_fields(1, v.param_paths);
        assert forall|i: int| 0 <= i < tail.len() implies (#[trigger] tail[i]).num != 2 by {}
        lemma_skip(head, tail, 2);
        lemma_last_at(head, 0, 2);
        lemma_strings_round(head, 1, v.param_paths);
    }
}


// ---------------------------------------------------------------- set

pub struct UpdateParamSettingV {
    pub param: Seq<char>,
    pub value: Seq<char>,
    pub required: bool,
}

/// One parameter to set on an object.
pub struct UpdateParamSetting {
    pub param: String,
    pub value: String,
    pub required: bool,
}

impl View for UpdateParamSetting {
    type V = UpdateParamSettingV;

    open spec fn view(&self) -> UpdateParamSettingV {
        UpdateParamSettingV { param: self.param@, value: self.value@, required: self.required }
    }
}

impl Proto for UpdateParamSetting {
    open spec fn fields_of(v: UpdateParamSettingV) -> Seq<FieldV> {
        seq![str_f(1, v.param), str_f(2, v.value), varint_f(3, bool_code(v.required))]
    }

    open spec fn from_fields(fs: Seq<FieldV>) -> Option<UpdateParamSettingV> {
        match (opt_str(last_len(fs, 1)), opt_str(last_len(fs, 2))) {
            (Some(param), Some(value)) => Some(
                UpdateParamSettingV { param, value, required: bool_of(opt_u64(last_varint(fs, 3))) },
            ),
            _ => None,
        }
    }

    fn to_fields(&self) -> (r: Vec<Field>) {
        let mut fs: Vec<Field> = Vec::new();
        fs.push(str_field(1, self.param.as_str()));
        fs.push(str_field(2, self.value.as_str()));
        fs.push(varint_field(3, bool_to_code(self.required)));
        assert(fview(fs@) =~= Self::fields_of(self@));
        fs
    }

    fn from_field_list(fs: &Vec<Field>) -> (r: Option<Self>) {
        let param = opt_string(find_last_len(fs, 1));
        let value = opt_string(find_last_len(fs, 2));
        let required = opt_varint(find_last_varint(fs, 3)) != 0;
        match (param, value) {
            (Some(param), Some(value)) => Some(UpdateParamSetting { param, value, required }),
            _ => None,
        }
    }

    proof fn lemma_nums(v: UpdateParamSettingV) {
    }

    proof fn lemma_round(v: UpdateParamSettingV) {
        let fs = Self::fields_of(v);
        lemma_last_at(fs, 0, 1);
        lemma_last_at(fs, 1, 2);
        lemma_last_at(fs, 2, 3);
        lemma_str_round(v.param);
        lemma_str_round(v.value);
    }
}

pub struct UpdateObjectV {
    pub obj_path: Seq<char>,
    pub param_settings: Seq<UpdateParamSettingV>,
}

/// The parameters to set on one object.
pub struct UpdateObject {
    pub obj_path: String,
    pub param_settings: Vec<UpdateParamSetting>,
}

impl View for UpdateObject {
    type V = UpdateObjectV;

    open spec fn view(&self) -> UpdateObjectV {
        UpdateObjectV { obj_path: self.obj_path@, param_settings: view_seq(self.param_settings@) }
    }
}

impl Proto for UpdateObject {
    open spec fn fields_of(v: UpdateObjectV) -> Seq<FieldV> {
        seq![str_f(1, v.obj_path)] + child_fields::<UpdateParamSetting>(2, v.param_settings)
    }

    open spec fn from_fields(fs: Seq<FieldV>) -> Option<UpdateObjectV> {
        match (opt_str(last_len(fs, 1)), all_msgs::<UpdateParamSetting>(fs, 2)) {
            (Some(obj_path), Some(param_settings)) => Some(UpdateObjectV { obj_path, param_settings }),
            _ => None,
        }
    }

    fn to_fields(&self) -> (r: Vec<Field>) {
        let mut fs: Vec<Field> = Vec::new();
        fs.push(str_field(1, self.obj_path.as_str()));
        assert(fview(fs@) =~= seq![str_f(1, self.obj_path@)]);
        push_children(&mut fs, 2, &self.param_settings);
        fs
    }

    fn from_field_list(fs: &Vec<Field>) -> (r: Option<Self>) {
        let obj_path = opt_string(find_last_len(fs, 1));
        let param_settings = collect_children::<UpdateParamSetting>(fs, 2);
        match (obj_path, param_settings) {
            (Some(obj_path), Some(param_settings)) => Some(UpdateObject { obj_path, param_settings }),
            _ => None,
        }
    }

    proof fn lemma_nums(v: UpdateObjectV) {
        let fs = Self::fields_of(v);
        assert forall|i: int| 0 <= i < fs.len() implies crate::wire::valid_num(#[trigger] fs[i].num) by {
            if i > 0 {
                assert(fs[i].num == 2);
            }
        }
    }

    proof fn lemma_round(v: UpdateObjectV) {
        let head = seq![str_f(1, v.obj_path)];
        let tail = child_fields::<UpdateParamSetting>(2, v.param_settings);
        assert forall|i: int| 0 <= i < tail.len() implies (#[trigger] tail[i]).num != 1 by {}
        lemma_skip(head, tail, 1);
        lemma_last_at(head, 0, 1);
        lemma_str_round(v.obj_path);
        lemma_children_round::<UpdateParamSetting>(head, 2, v.param_settings);
    }
}

pub struct SetReqV {
    pub allow_partial: bool,
    pub update_objs: Seq<UpdateObjectV>,
}

/// A request to set parameters on objects.
pub struct SetReq {
    pub allow_partial: bool,
    pub update_objs: Vec<UpdateObject>,
}

impl View for SetReq {
    type V = SetReqV;

    open spec fn view(&self) -> SetReqV {
        SetReqV { allow_partial: self.allow_partial, update_objs: view_seq(self.update_objs@) }
    }
}

impl Proto for SetReq {
    open spec fn fields_of(v: SetReqV) -> Seq<FieldV> {
        seq![varint_f(1, bool_code(v.allow_partial))] + child_fields::<UpdateObject>(2, v.update_objs)
    }

    open spec fn from_fields(fs: Seq<FieldV>) -> Option<SetReqV> {
        match all_msgs::<UpdateObject>(fs, 2) {
            Some(update_objs) => Some(SetReqV { allow_partial: bool_of(opt_u64(last_varint(fs, 1))), update_objs }),
            None => None,
        }
    }

    fn to_fields(&self) -> (r: Vec<Field>) {
        let mut fs: Vec<Field> = Vec::new();
        fs.push(varint_field(1, bool_to_code(self.allow_partial)));
        assert(fview(fs@) =~= seq![varint_f(1, bool_code(self.allow_partial))]);
        push_children(&mut fs, 2, &self.update_objs);
        fs
    }

    fn from_field_list(fs: &Vec<Field>) -> (r: Option<Self>) {
        let allow_partial = opt_varint(find_last_varint(fs, 1)) != 0;
        match collect_children::<UpdateObject>(fs, 2) {
            Some(update_objs) => Some(SetReq { allow_partial, update_objs }),
            None => None,
        }
    }

    proof fn lemma_nums(v: SetReqV) {
        let fs = Self::fields_of(v);
        assert forall|i: int| 0 <= i < fs.len() implies crate::wire::valid_num(#[trigger] fs[i].num) by {
            if i > 0 {
                assert(fs[i].num == 2);
            }
        }
    }

    proof fn lemma_round(v: SetReqV) {
        let head = seq![varint_f(1, bool_code(v.allow_partial))];
        let tail = child_fields::<UpdateObject>(2, v.update_objs);
        assert forall|i: int| 0 <= i < tail.len() implies (#[trigger] tail[i]).num != 1 by {}
        lemma_skip(head, tail, 1);
        lemma_last_at(head, 0, 1);
        lemma_children_round::<UpdateObject>(head, 2, v.update_objs);
    }
}

// ---------------------------------------------------------------- operate

pub struct OperateV {
    pub command: Seq<char>,
    pub command_key: Seq<char>,
    pub send_resp: bool,
    pub input_args: Seq<(Seq<char>, Seq<char>)>,
}

/// A request to run a command.
pub struct Operate {
    pub command: String,
    pub command_key: String,
    pub send_resp: bool,
    pub input_args: Vec<(String, String)>,
}

impl View for Operate {
    type V = OperateV;

    open spec fn view(&self) -> OperateV {
        OperateV {
            command: self.command@,
            command_key: self.command_key@,
            send_resp: self.send_resp,
            input_args: view_seq(self.input_args@),
        }
    }
}

impl Proto for Operate {
    open spec fn fields_of(v: OperateV) -> Seq<FieldV> {
        seq![str_f(1, v.command), str_f(2, v.command_key), varint_f(3, bool_code(v.send_resp))]
            + child_fields::<(String, String)>(4, v.input_args)
    }

    open spec fn from_fields(fs: Seq<FieldV>) -> Option<OperateV> {
        match (opt_str(last_len(fs, 1)), opt_str(last_len(fs, 2)), all_msgs::<(String, String)>(fs, 4)) {
            (Some(command), Some(command_key), Some(input_args)) => Some(
                OperateV { command, command_key, send_resp: bool_of(opt_u64(last_varint(fs, 3))), input_args },
            ),
            _ => None,
        }
    }

    fn to_fields(&self) -> (r: Vec<Field>) {
        let mut fs: Vec<Field> = Vec::new();
        fs.push(str_field(1, self.command.as_str()));
        fs.push(str_field(2, self.command_key.as_str()));
        fs.push(varint_field(3, bool_to_code(self.send_resp)));
        assert(fview(fs@) =~= seq![
            str_f(1, self.command@),
            str_f(2, self.command_key@),
            varint_f(3, bool_code(self.send_resp)),
        ]);
        push_children(&mut fs, 4, &self.input_args);
        fs
    }

    fn from_field_list(fs: &Vec<Field>) -> (r: Option<Self>) {
        let command = opt_string(find_last_len(fs, 1));
        let command_key = opt_string(find_last_len(fs, 2));
        let send_resp = opt_varint(find_last_varint(fs, 3)) != 0;
        let input_args = collect_children::<(String, String)>(fs, 4);
        match (command, command_key, input_args) {
            (Some(command), Some(command_key), Some(input_args)) => Some(
                Operate { command, command_key, send_resp, input_args },
            ),
            _ => None,
        }
    }

    proof fn lemma_nums(v: OperateV) {
        let fs = Self::fields_of(v);
        assert forall|i: int| 0 <= i < fs.len() implies crate::wire::valid_num(#[trigger] fs[i].num) by {
            if i > 2 {
                assert(fs[i].num == 4);
            }
        }
    }

    proof fn lemma_round(v: OperateV) {
        let head = seq![str_f(1, v.command), str_f(2, v.command_key), varint_f(3, bool_code(v.send_resp))];
        let tail = child_fields::<(String, String)>(4, v.input_args);
        assert forall|i: int| 0 <= i < tail.len() implies (#[trigger] tail[i]).num == 4 by {}
        lemma_skip(head, tail, 1);
        lemma_skip(head, tail, 2);
        lemma_skip(head, tail, 3);
        lemma_last_at(head, 0, 1);
        lemma_last_at(head, 1, 2);
        lemma_last_at(head, 2, 3);
        lemma_str_round(v.command);
        lemma_str_round(v.command_key);
        lemma_children_round::<(String, String)>(head, 4, v.input_args);
    }
}


// ---------------------------------------------------------------- single strings

/// A request for the protocol versions that the peer supports, listing ours.
pub struct GetSupportedProto {
    pub controller_supported_versions: String,
}

impl View for GetSupportedProto {
    type V = Seq<char>;

    open spec fn view(&self) -> Seq<char> {
        self.controller_supported_versions@
    }
}

impl Proto for GetSupportedProto {
    open spec fn fields_of(v: Seq<char>) -> Seq<FieldV> {
        seq![str_f(1, v)]
    }

    open spec fn from_fields(fs: Seq<FieldV>) -> Option<Seq<char>> {
        opt_str(last_len(fs, 1))
    }

    fn to_fields(&self) -> (r: Vec<Field>) {
        let mut fs: Vec<Field> = Vec::new();
        fs.push(str_field(1, self.controller_supported_versions.as_str()));
        assert(fview(fs@) =~= Self::fields_of(self@));
        fs
    }

    fn from_field_list(fs: &Vec<Field>) -> (r: Option<Self>) {
        match opt_string(find_last_len(fs, 1)) {
            Some(controller_supported_versions) => Some(GetSupportedProto { controller_supported_versions }),
            None => None,
        }
    }

    proof fn lemma_nums(v: Seq<char>) {
    }

    proof fn lemma_round(v: Seq<char>) {
        lemma_last_at(Self::fields_of(v), 0, 1);
        lemma_str_round(v);
    }
}

/// The protocol versions that the peer supports, comma-separated.
pub struct GetSupportedProtoResp {
    pub agent_supported_versions: String,
}

impl View for GetSupportedProtoResp {
    type V = Seq<char>;

    open spec fn view(&self) -> Seq<char> {
        self.agent_supported_versions@
    }
}

impl Proto for GetSupportedProtoResp {
    open spec fn fields_of(v: Seq<char>) -> Seq<FieldV> {
        seq![str_f(1, v)]
    }

    open spec fn from_fields(fs: Seq<FieldV>) -> Option<Seq<char>> {
        opt_str(last_len(fs, 1))
    }

    fn to_fields(&self) -> (r: Vec<Field>) {
        let mut fs: Vec<Field> = Vec::new();
        fs.push(str_field(1, self.agent_supported_versions.as_str()));
        assert(fview(fs@) =~= Self::fields_of(self@));
        fs
    }

    fn from_field_list(fs: &Vec<Field>) -> (r: Option<Self>) {
        match opt_string(find_last_len(fs, 1)) {
            Some(agent_supported_versions) => Some(GetSupportedProtoResp { agent_supported_versions }),
            None => None,
        }
    }

    proof fn lemma_nums(v: Seq<char>) {
    }

    proof fn lemma_round(v: Seq<char>) {
        lemma_last_at(Self::fields_of(v), 0, 1);
        lemma_str_round(v);
    }
}

/// The acknowledgement of a notification.
pub struct NotifyResp {
    pub subscription_id: String,
}

impl View for NotifyResp {
    type V = Seq<char>;

    open spec fn view(&self) -> Seq<char> {
        self.subscription_id@
    }
}

impl Proto for NotifyResp {
    open spec fn fields_of(v: Seq<char>) -> Seq<FieldV> {
        seq![str_f(1, v)]
    }

    open spec fn from_fields(fs: Seq<FieldV>) -> Option<Seq<char>> {
        opt_str(last_len(fs, 1))
    }

    fn to_fields(&self) -> (r: Vec<Field>) {
        let mut fs: Vec<Field> = Vec::new();
        fs.push(str_field(1, self.subscription_id.as_str()));
        assert(fview(fs@) =~= Self::fields_of(self@));
        fs
    }

    fn from_field_list(fs: &Vec<Field>) -> (r: Option<Self>) {
        match opt_string(find_last_len(fs, 1)) {
            Some(subscription_id) => Some(NotifyResp { subscription_id }),
            None => None,
        }
    }

    proof fn lemma_nums(v: Seq<char>) {
    }

    proof fn lemma_round(v: Seq<char>) {
        lemma_last_at(Self::fields_of(v), 0, 1);
        lemma_str_round(v);
    }
}

// ---------------------------------------------------------------- notify

pub struct EventV {
    pub obj_path: Seq<char>,
    pub event_name: Seq<char>,
    pub command_key: Seq<char>,
    pub params: Seq<(Seq<char>, Seq<char>)>,
}

/// An event raised on an object, with its parameters.
pub struct Event {
    pub obj_path: String,
    pub event_name: String,
    pub command_key: String,
    pub params: Vec<(String, String)>,
}

impl View for Event {
    type V = EventV;

    open spec fn view(&self) -> EventV {
        EventV {
            obj_path: self.obj_path@,
            event_name: self.event_name@,
            command_key: self.command_key@,
            params: view_seq(self.params@),
        }
    }
}

impl Proto for Event {
    open spec fn fields_of(v: EventV) -> Seq<FieldV> {
        seq![str_f(1, v.obj_path), str_f(2, v.event_name), str_f(4, v.command_key)]
            + child_fields::<(String, String)>(3, v.params)
    }

    open spec fn from_fields(fs: Seq<FieldV>) -> Option<EventV> {
        match (
            opt_str(last_len(fs, 1)),
            opt_str(last_len(fs, 2)),
            opt_str(last_len(fs, 4)),
            all_msgs::<(String, String)>(fs, 3),
        ) {
            (Some(obj_path), Some(event_name), Some(command_key), Some(params)) => Some(
                EventV { obj_path, event_name, command_key, params },
            ),
            _ => None,
        }
    }

    fn to_fields(&self) -> (r: Vec<Field>) {
        let mut fs: Vec<Field> = Vec::new();
        fs.push(str_field(1, self.obj_path.as_str()));
        fs.push(str_field(2, self.event_name.as_str()));
        fs.push(str_field(4, self.command_key.as_str()));
        assert(fview(fs@) =~= seq![
            str_f(1, self.obj_path@),
            str_f(2, self.event_name@),
            str_f(4, self.command_key@),
        ]);
        push_children(&mut fs, 3, &self.params);
        fs
    }

    fn from_field_list(fs: &Vec<Field>) -> (r: Option<Self>) {
        let obj_path = opt_string(find_last_len(fs, 1));
        let event_name = opt_string(find_last_len(fs, 2));
        let command_key = opt_string(find_last_len(fs, 4));
        let params = collect_children::<(String, String)>(fs, 3);
        match (obj_path, event_name, command_key, params) {
            (Some(obj_path), Some(event_name), Some(command_key), Some(params)) => Some(
                Event { obj_path, event_name, command_key, params },
            ),
            _ => None,
        }
    }

    proof fn lemma_nums(v: EventV) {
        let fs = Self::fields_of(v);
        assert forall|i: int| 0 <= i < fs.len() implies crate::wire::valid_num(#[trigger] fs[i].num) by {
            if i > 2 {
                assert(fs[i].num == 3);
            }
        }
    }

    proof fn lemma_round(v: EventV) {
        let head = seq![str_f(1, v.obj_path), str_f(2, v.event_name), str_f(4, v.command_key)];
        let tail = child_fields::<(String, String)>(3, v.params);
        assert forall|i: int| 0 <= i < tail.len() implies (#[trigger] tail[i]).num == 3 by {}
        lemma_skip(head, tail, 1);
        lemma_skip(head, tail, 2);
        lemma_skip(head, tail, 4);
        lemma_last_at(head, 0, 1);
        lemma_last_at(head, 1, 2);
        lemma_last_at(head, 2, 4);
        lemma_str_round(v.obj_path);
        lemma_str_round(v.event_name);
        lemma_str_round(v.command_key);
        lemma_children_round::<(String, String)>(head, 3, v.params);
    }
}

pub struct ValueChangeV {
    pub param_path: Seq<char>,
    pub param_value: Seq<char>,
}

/// A parameter that took a new value.
pub struct ValueChange {
    pub param_path: String,
    pub param_value: String,
}

impl View for ValueChange {
    type V = ValueChangeV;

    open spec fn view(&self) -> ValueChangeV {
        ValueChangeV { param_path: self.param_path@, param_value: self.param_value@ }
    }
}

impl Proto for ValueChange {
    open spec fn fields_of(v: ValueChangeV) -> Seq<FieldV> {
        seq![str_f(1, v.param_path), str_f(2, v.param_value)]
    }

    open spec fn from_fields(fs: Seq<FieldV>) -> Option<ValueChangeV> {
        match (opt_str(last_len(fs, 1)), opt_str(last_len(fs, 2))) {
            (Some(param_path), Some(param_value)) => Some(ValueChangeV { param_path, param_value }),
            _ => None,
        }
    }

    fn to_fields(&self) -> (r: Vec<Field>) {
        let mut fs: Vec<Field> = Vec::new();
        fs.push(str_field(1, self.param_path.as_str()));
        fs.push(str_field(2, self.param_value.as_str()));
        assert(fview(fs@) =~= Self::fields_of(self@));
        fs
    }

    fn from_field_list(fs: &Vec<Field>) -> (r: Option<Self>) {
        let param_path = opt_string(find_last_len(fs, 1));
        let param_value = opt_string(find_last_len(fs, 2));
        match (param_path, param_value) {
            (Some(param_path), Some(param_value)) => Some(ValueChange { param_path, param_value }),
            _ => None,
        }
    }

    proof fn lemma_nums(v: ValueChangeV) {
    }

    proof fn lemma_round(v: ValueChangeV) {
        let fs = Self::fields_of(v);
        lemma_last_at(fs, 0, 1);
        lemma_last_at(fs, 1, 2);
        lemma_str_round(v.param_path);
        lemma_str_round(v.param_value);
    }
}

pub enum NotificationV {
    Event(EventV),
    ValueChange(ValueChangeV),
}

/// What a notification reports.
pub enum Notification {
    Event(Event),
    ValueChange(ValueChange),
}

impl View for Notification {
    type V = NotificationV;

    open spec fn view(&self) -> NotificationV {
        match self {
            Notification::Event(e) => NotificationV::Event(e@),
            Notification::ValueChange(v) => NotificationV::ValueChange(v@),
        }
    }
}

pub struct NotifyV {
    pub subscription_id: Seq<char>,
    pub send_resp: bool,
    pub notification: Option<NotificationV>,
}

/// A notification sent to the controller.
pub struct Notify {
    pub subscription_id: String,
    pub send_resp: bool,
    pub notification: Option<Notification>,
}

impl View for Notify {
    type V = NotifyV;

    open spec fn view(&self) -> NotifyV {
        NotifyV {
            subscription_id: self.subscription_id@,
            send_resp: self.send_resp,
            notification: match &self.notification {
                Some(n) => Some(n@),
                None => None,
            },
        }
    }
}

pub open spec fn notification_nums() -> Seq<u64> {
    seq![3u64, 4u64]
}

pub open spec fn notification_fields(n: Option<NotificationV>) -> Seq<FieldV> {
    match n {
        Some(NotificationV::Event(e)) => seq![len_f(3, enc::<Event>(e))],
        Some(NotificationV::ValueChange(v)) => seq![len_f(4, enc::<ValueChange>(v))],
        None => seq![],
    }
}

pub open spec fn notification_of(fs: Seq<FieldV>) -> Option<Option<NotificationV>> {
    match last_among(fs, notification_nums()) {
        None => Some(None),
        Some(f) => if f.num == 3 {
            match dec::<Event>(f.val->Len_0) {
                Some(e) => Some(Some(NotificationV::Event(e))),
                None => None,
            }
        } else {
            match dec::<ValueChange>(f.val->Len_0) {
                Some(v) => Some(Some(NotificationV::ValueChange(v))),
                None => None,
            }
        },
    }
}

proof fn lemma_last_among_one(pre: Seq<FieldV>, f: FieldV, nums: Seq<u64>, k: int)
    requires
        0 <= k < nums.len(),
        nums[k] == f.num,
        f.val is Len,
    ensures
        last_among(pre.push(f), nums) == Some(f),
{
    assert(pre.push(f).last() == f);
    assert(nums.contains(f.num));
}

proof fn lemma_last_among_none(fs: Seq<FieldV>, nums: Seq<u64>)
    requires
        forall|i: int| 0 <= i < fs.len() ==> !nums.contains(#[trigger] fs[i].num),
    ensures
        last_among(fs, nums) is None,
    decreases fs.len(),
{
    if fs.len() > 0 {
        let d = fs.drop_last();
        assert(fs.last() == fs[fs.len() - 1]);
        assert forall|i: int| 0 <= i < d.len() implies !nums.contains(#[trigger] d[i].num) by {
            assert(d[i] == fs[i]);
        }
        lemma_last_among_none(d, nums);
    }
}

impl Proto for Notify {
    open spec fn fields_of(v: NotifyV) -> Seq<FieldV> {
        seq![str_f(1, v.subscription_id), varint_f(2, bool_code(v.send_resp))] + notification_fields(v.notification)
    }

    open spec fn from_fields(fs: Seq<FieldV>) -> Option<NotifyV> {
        match (opt_str(last_len(fs, 1)), notification_of(fs)) {
            (Some(subscription_id), Some(notification)) => Some(
                NotifyV { subscription_id, send_resp: bool_of(opt_u64(last_varint(fs, 2))), notification },
            ),
            _ => None,
        }
    }

    fn to_fields(&self) -> (r: Vec<Field>) {
        let mut fs: Vec<Field> = Vec::new();
        fs.push(str_field(1, self.subscription_id.as_str()));
        fs.push(varint_field(2, bool_to_code(self.send_resp)));
        match &self.notification {
            Some(Notification::Event(e)) => fs.push(msg_field(3, e)),
            Some(Notification::ValueChange(v)) => fs.push(msg_field(4, v)),
            None => {},
        }
        assert(fview(fs@) =~= Self::fields_of(self@));
        fs
    }

    fn from_field_list(fs: &Vec<Field>) -> (r: Option<Self>) {
        let subscription_id = match opt_string(find_last_len(fs, 1)) {
            Some(s) => s,
            None => {
                return None;
            },
        };
        let send_resp = opt_varint(find_last_varint(fs, 2)) != 0;
        let nums: [u64; 2] = [3, 4];
        assert(nums@ == notification_nums());
        let notification = match find_last_among(fs, &nums) {
            None => None,
            Some(f) => match &f.val {
                Wire::Len(b) => if f.num == 3 {
                    match crate::pb::decode_msg_of::<Event>(b.as_slice()) {
                        Some(e) => Some(Notification::Event(e)),
                        None => {
                            return None;
                        },
                    }
                } else {
                    match crate::pb::decode_msg_of::<ValueChange>(b.as_slice()) {
                        Some(v) => Some(Notification::ValueChange(v)),
                        None => {
                            return None;
                        },
                    }
                },
                _ => {
                    return None;
                },
            },
        };
        Some(Notify { subscription_id, send_resp, notification })
    }

    proof fn lemma_nums(v: NotifyV) {
    }

    proof fn lemma_round(v: NotifyV) {
        lemma_notify_round(v);
    }
}

proof fn lemma_notify_head(v: NotifyV)
    ensures
        last_len(NotifyV_fields(v), 1) == Some(crate::pb::str_bytes_spec(v.subscription_id)),
        last_varint(NotifyV_fields(v), 2) == Some(bool_code(v.send_resp)),
{
    let head = seq![str_f(1, v.subscription_id), varint_f(2, bool_code(v.send_resp))];
    let tail = notification_fields(v.notification);
    assert forall|i: int| 0 <= i < tail.len() implies (#[trigger] tail[i]).num >= 3 by {}
    lemma_skip(head, tail, 1);
    lemma_skip(head, tail, 2);
    lemma_last_at(head, 0, 1);
    lemma_last_at(head, 1, 2);
}

pub open spec fn NotifyV_fields(v: NotifyV) -> Seq<FieldV> {
    <Notify as Proto>::fields_of(v)
}

proof fn lemma_notification_round(v: NotifyV)
    requires
        fields_bytes(<Notify as Proto>::fields_of(v)).len() < 0x1_0000_0000_0000_0000,
    ensures
        notification_of(<Notify as Proto>::fields_of(v)) == Some(v.notification),
{
    let head = seq![str_f(1, v.subscription_id), varint_f(2, bool_code(v.send_resp))];
    let fs = <Notify as Proto>::fields_of(v);
    match v.notification {
        Some(NotificationV::Event(e)) => {
            assert(fs == head.push(len_f(3, enc::<Event>(e))));
            lemma_last_among_one(head, len_f(3, enc::<Event>(e)), notification_nums(), 0);
            lemma_payload_within(fs, 2);
            crate::pb::lemma_enc_dec::<Event>(e);
        },
        Some(NotificationV::ValueChange(c)) => {
            assert(fs == head.push(len_f(4, enc::<ValueChange>(c))));
            lemma_last_among_one(head, len_f(4, enc::<ValueChange>(c)), notification_nums(), 1);
            lemma_payload_within(fs, 2);
            crate::pb::lemma_enc_dec::<ValueChange>(c);
        },
        None => {
            assert(fs =~= head);
            assert forall|i: int| 0 <= i < head.len() implies !notification_nums().contains(#[trigger] head[i].num) by {
                assert(head[i].num <= 2);
                if notification_nums().contains(head[i].num) {
                    let k = choose|k: int| 0 <= k < 2 && notification_nums()[k] == head[i].num;
                }
            }
            lemma_last_among_none(head, notification_nums());
        },
    }
}

proof fn lemma_notify_round(v: NotifyV)
    requires
        fields_bytes(<Notify as Proto>::fields_of(v)).len() < 0x1_0000_0000_0000_0000,
    ensures
        <Notify as Proto>::from_fields(<Notify as Proto>::fields_of(v)) == Some(v),
{
    lemma_notify_head(v);
    lemma_str_round(v.subscription_id);
    lemma_notification_round(v);
}


// ---------------------------------------------------------------- get_resp

pub struct ResolvedPathResultV {
    pub resolved_path: Seq<char>,
    pub result_params: Seq<(Seq<char>, Seq<char>)>,
}

/// The parameters found under one resolved path.
pub struct ResolvedPathResult {
    pub resolved_path: String,
    pub result_params: Vec<(String, String)>,
}

impl View for ResolvedPathResult {
    type V = ResolvedPathResultV;

    open spec fn view(&self) -> ResolvedPathResultV {
        ResolvedPathResultV { resolved_path: self.resolved_path@, result_params: view_seq(self.result_params@) }
    }
}

impl Proto for ResolvedPathResult {
    open spec fn fields_of(v: ResolvedPathResultV) -> Seq<FieldV> {
        seq![str_f(1, v.resolved_path)] + child_fields::<(String, String)>(2, v.result_params)
    }

    open spec fn from_fields(fs: Seq<FieldV>) -> Option<ResolvedPathResultV> {
        match (opt_str(last_len(fs, 1)), all_msgs::<(String, String)>(fs, 2)) {
            (Some(resolved_path), Some(result_params)) => Some(ResolvedPathResultV { resolved_path, result_params }),
            _ => None,
        }
    }

    fn to_fields(&self) -> (r: Vec<Field>) {
        let mut fs: Vec<Field> = Vec::new();
        fs.push(str_field(1, self.resolved_path.as_str()));
        assert(fview(fs@) =~= seq![str_f(1, self.resolved_path@)]);
        push_children(&mut fs, 2, &self.result_params);
        fs
    }

    fn from_field_list(fs: &Vec<Field>) -> (r: Option<Self>) {
        let resolved_path = opt_string(find_last_len(fs, 1));
        let result_params = collect_children::<(String, String)>(fs, 2);
        match (resolved_path, result_params) {
            (Some(resolved_path), Some(result_params)) => Some(ResolvedPathResult { resolved_path, result_params }),
            _ => None,
        }
    }

    proof fn lemma_nums(v: ResolvedPathResultV) {
        let fs = Self::fields_of(v);
        assert forall|i: int| 0 <= i < fs.len() implies crate::wire::valid_num(#[trigger] fs[i].num) by {
            if i > 0 {
                assert(fs[i].num == 2);
            }
        }
    }

    proof fn lemma_round(v: ResolvedPathResultV) {
        let head = seq![str_f(1, v.resolved_path)];
        let tail = child_fields::<(String, String)>(2, v.result_params);
        assert forall|i: int| 0 <= i < tail.len() implies (#[trigger] tail[i]).num != 1 by {}
        lemma_skip(head, tail, 1);
        lemma_last_at(head, 0, 1);
        lemma_str_round(v.resolved_path);
        lemma_children_round::<(String, String)>(head, 2, v.result_params);
    }
}

pub struct RequestedPathResultV {
    pub requested_path: Seq<char>,
    pub err_code: u32,
    pub err_msg: Seq<char>,
    pub resolved_path_results: Seq<ResolvedPathResultV>,
}

/// The outcome for one requested path.
pub struct RequestedPathResult {
    pub requested_path: String,
    pub err_code: u32,
    pub err_msg: String,
    pub resolved_path_results: Vec<ResolvedPathResult>,
}

impl View for RequestedPathResult {
    type V = RequestedPathResultV;

    open spec fn view(&self) -> RequestedPathResultV {
        RequestedPathResultV {
            requested_path: self.requested_path@,
            err_code: self.err_code,
            err_msg: self.err_msg@,
            resolved_path_results: view_seq(self.resolved_path_results@),
        }
    }
}

impl Proto for RequestedPathResult {
    open spec fn fields_of(v: RequestedPathResultV) -> Seq<FieldV> {
        seq![str_f(1, v.requested_path), fixed32_f(2, v.err_code), str_f(3, v.err_msg)]
            + child_fields::<ResolvedPathResult>(4, v.resolved_path_results)
    }

    open spec fn from_fields(fs: Seq<FieldV>) -> Option<RequestedPathResultV> {
        match (opt_str(last_len(fs, 1)), opt_str(last_len(fs, 3)), all_msgs::<ResolvedPathResult>(fs, 4)) {
            (Some(requested_path), Some(err_msg), Some(resolved_path_results)) => Some(
                RequestedPathResultV {
                    requested_path,
                    err_code: opt_u32(last_fixed32(fs, 2)),
                    err_msg,
                    resolved_path_results,
                },
            ),
            _ => None,
        }
    }

    fn to_fields(&self) -> (r: Vec<Field>) {
        let mut fs: Vec<Field> = Vec::new();
        fs.push(str_field(1, self.requested_path.as_str()));
        fs.push(fixed32_field(2, self.err_code));
        fs.push(str_field(3, self.err_msg.as_str()));
        assert(fview(fs@) =~= seq![
            str_f(1, self.requested_path@),
            fixed32_f(2, self.err_code),
            str_f(3, self.err_msg@),
        ]);
        push_children(&mut fs, 4, &self.resolved_path_results);
        fs
    }

    fn from_field_list(fs: &Vec<Field>) -> (r: Option<Self>) {
        let requested_path = opt_string(find_last_len(fs, 1));
        let err_code = opt_fixed32(find_last_fixed32(fs, 2));
        let err_msg = opt_string(find_last_len(fs, 3));
        let resolved = collect_children::<ResolvedPathResult>(fs, 4);
        match (requested_path, err_msg, resolved) {
            (Some(requested_path), Some(err_msg), Some(resolved_path_results)) => Some(
                RequestedPathResult { requested_path, err_code, err_msg, resolved_path_results },
            ),
            _ => None,
        }
    }

    proof fn lemma_nums(v: RequestedPathResultV) {
        let fs = Self::fields_of(v);
        assert forall|i: int| 0 <= i < fs.len() implies crate::wire::valid_num(#[trigger] fs[i].num) by {
            if i > 2 {
                assert(fs[i].num == 4);
            }
        }
    }

    proof fn lemma_round(v: RequestedPathResultV) {
        let head = seq![str_f(1, v.requested_path), fixed32_f(2, v.err_code), str_f(3, v.err_msg)];
        let tail = child_fields::<ResolvedPathResult>(4, v.resolved_path_results);
        assert forall|i: int| 0 <= i < tail.len() implies (#[trigger] tail[i]).num == 4 by {}
        lemma_skip(head, tail, 1);
        lemma_skip(head, tail, 2);
        lemma_skip(head, tail, 3);
        lemma_last_at(head, 0, 1);
        lemma_last_at(head, 1, 2);
        lemma_last_at(head, 2, 3);
        lemma_str_round(v.requested_path);
        lemma_str_round(v.err_msg);
        lemma_children_round::<ResolvedPathResult>(head, 4, v.resolved_path_results);
    }
}

/// The reply to a Get: one result per requested path.
pub struct GetResp {
    pub req_path_results: Vec<RequestedPathResult>,
}

impl View for GetResp {
    type V = Seq<RequestedPathResultV>;

    open spec fn view(&self) -> Seq<RequestedPathResultV> {
        view_seq(self.req_path_results@)
    }
}

proof fn lemma_children_only<T: Proto>(n: u64, vs: Seq<T::V>)
    requires
        valid_num(n),
        fields_bytes(child_fields::<T>(n, vs)).len() < 0x1_0000_0000_0000_0000,
    ensures
        all_msgs::<T>(child_fields::<T>(n, vs), n) == Some(vs),
        nums_ok(child_fields::<T>(n, vs)),
{
    let e = Seq::<FieldV>::empty();
    assert(e + child_fields::<T>(n, vs) =~= child_fields::<T>(n, vs));
    lemma_children_round::<T>(e, n, vs);
}

fn children_fields<T: Proto>(n: u64, items: &Vec<T>) -> (r: Vec<Field>)
    ensures
        fview(r@) == child_fields::<T>(n, view_seq(items@)),
{
    let mut fs: Vec<Field> = Vec::new();
    assert(fview(fs@) =~= Seq::<FieldV>::empty());
    push_children(&mut fs, n, items);
    assert(Seq::<FieldV>::empty() + child_fields::<T>(n, view_seq(items@)) =~= child_fields::<T>(n, view_seq(items@)));
    fs
}

impl Proto for GetResp {
    open spec fn fields_of(v: Seq<RequestedPathResultV>) -> Seq<FieldV> {
        child_fields::<RequestedPathResult>(1, v)
    }

    open spec fn from_fields(fs: Seq<FieldV>) -> Option<Seq<RequestedPathResultV>> {
        all_msgs::<RequestedPathResult>(fs, 1)
    }

    fn to_fields(&self) -> (r: Vec<Field>) {
        children_fields(1, &self.req_path_results)
    }

    fn from_field_list(fs: &Vec<Field>) -> (r: Option<Self>) {
        match collect_children::<RequestedPathResult>(fs, 1) {
            Some(req_path_results) => Some(GetResp { req_path_results }),
            None => None,
        }
    }

    proof fn lemma_nums(v: Seq<RequestedPathResultV>) {
    }

    proof fn lemma_round(v: Seq<RequestedPathResultV>) {
        lemma_children_only::<RequestedPathResult>(1, v);
    }
}

// ---------------------------------------------------------------- set_resp

/// The status written for every updated object: success, with no instance
/// results.
pub open spec fn oper_success_bytes() -> Seq<u8> {
    seq![0x12u8, 0x00u8]
}

/// One object that a Set updated.
pub struct UpdatedObjectResult {
    pub requested_path: String,
}

impl View for UpdatedObjectResult {
    type V = Seq<char>;

    open spec fn view(&self) -> Seq<char> {
        self.requested_path@
    }
}

impl Proto for UpdatedObjectResult {
    open spec fn fields_of(v: Seq<char>) -> Seq<FieldV> {
        seq![str_f(1, v), len_f(2, oper_success_bytes())]
    }

    open spec fn from_fields(fs: Seq<FieldV>) -> Option<Seq<char>> {
        opt_str(last_len(fs, 1))
    }

    fn to_fields(&self) -> (r: Vec<Field>) {
        let mut fs: Vec<Field> = Vec::new();
        fs.push(str_field(1, self.requested_path.as_str()));
        let mut status: Vec<u8> = Vec::new();
        status.push(0x12u8);
        status.push(0x00u8);
        assert(status@ =~= oper_success_bytes());
        fs.push(Field { num: 2, val: Wire::Len(status) });
        assert(fview(fs@) =~= Self::fields_of(self@));
        fs
    }

    fn from_field_list(fs: &Vec<Field>) -> (r: Option<Self>) {
        match opt_string(find_last_len(fs, 1)) {
            Some(requested_path) => Some(UpdatedObjectResult { requested_path }),
            None => None,
        }
    }

    proof fn lemma_nums(v: Seq<char>) {
    }

    proof fn lemma_round(v: Seq<char>) {
        lemma_last_at(Self::fields_of(v), 0, 1);
        lemma_str_round(v);
    }
}

/// The reply to a Set: the objects updated.
pub struct SetResp {
    pub updated_obj_results: Vec<UpdatedObjectResult>,
}

impl View for SetResp {
    type V = Seq<Seq<char>>;

    open spec fn view(&self) -> Seq<Seq<char>> {
        view_seq(self.updated_obj_results@)
    }
}

impl Proto for SetResp {
    open spec fn fields_of(v: Seq<Seq<char>>) -> Seq<FieldV> {
        child_fields::<UpdatedObjectResult>(1, v)
    }

    open spec fn from_fields(fs: Seq<FieldV>) -> Option<Seq<Seq<char>>> {
        all_msgs::<UpdatedObjectResult>(fs, 1)
    }

    fn to_fields(&self) -> (r: Vec<Field>) {
        children_fields(1, &self.updated_obj_results)
    }

    fn from_field_list(fs: &Vec<Field>) -> (r: Option<Self>) {
        match collect_children::<UpdatedObjectResult>(fs, 1) {
            Some(updated_obj_results) => Some(SetResp { updated_obj_results }),
            None => None,
        }
    }

    proof fn lemma_nums(v: Seq<Seq<char>>) {
    }

    proof fn lemma_round(v: Seq<Seq<char>>) {
        lemma_children_only::<UpdatedObjectResult>(1, v);
    }
}

// ---------------------------------------------------------------- operate_resp

/// The output arguments of a command.
pub struct OutputArgs {
    pub output_args: Vec<(String, String)>,
}

impl View for OutputArgs {
    type V = Seq<(Seq<char>, Seq<char>)>;

    open spec fn view(&self) -> Seq<(Seq<char>, Seq<char>)> {
        view_seq(self.output_args@)
    }
}

impl Proto for OutputArgs {
    open spec fn fields_of(v: Seq<(Seq<char>, Seq<char>)>) -> Seq<FieldV> {
        child_fields::<(String, String)>(1, v)
    }

    open spec fn from_fields(fs: Seq<FieldV>) -> Option<Seq<(Seq<char>, Seq<char>)>> {
        all_msgs::<(String, String)>(fs, 1)
    }

    fn to_fields(&self) -> (r: Vec<Field>) {
        children_fields(1, &self.output_args)
    }

    fn from_field_list(fs: &Vec<Field>) -> (r: Option<Self>) {
        match collect_children::<(String, String)>(fs, 1) {
            Some(output_args) => Some(OutputArgs { output_args }),
            None => None,
        }
    }

    proof fn lemma_nums(v: Seq<(Seq<char>, Seq<char>)>) {
    }

    proof fn lemma_round(v: Seq<(Seq<char>, Seq<char>)>) {
        lemma_children_only::<(String, String)>(1, v);
    }
}

pub struct OperationResultV {
    pub executed_command: Seq<char>,
    pub output_args: Seq<(Seq<char>, Seq<char>)>,
}

/// The outcome of one command: its output arguments.
pub struct OperationResult {
    pub executed_command: String,
    pub req_output_args: OutputArgs,
}

impl View for OperationResult {
    type V = OperationResultV;

    open spec fn view(&self) -> OperationResultV {
        OperationResultV { executed_command: self.executed_command@, output_args: self.req_output_args@ }
    }
}

impl Proto for OperationResult {
    open spec fn fields_of(v: OperationResultV) -> Seq<FieldV> {
        seq![str_f(1, v.executed_command), len_f(3, enc::<OutputArgs>(v.output_args))]
    }

    open spec fn from_fields(fs: Seq<FieldV>) -> Option<OperationResultV> {
        match (opt_str(last_len(fs, 1)), crate::pb::req_msg::<OutputArgs>(fs, 3)) {
            (Some(executed_command), Some(output_args)) => Some(OperationResultV { executed_command, output_args }),
            _ => None,
        }
    }

    fn to_fields(&self) -> (r: Vec<Field>) {
        let mut fs: Vec<Field> = Vec::new();
        fs.push(str_field(1, self.executed_command.as_str()));
        fs.push(msg_field(3, &self.req_output_args));
        assert(fview(fs@) =~= Self::fields_of(self@));
        fs
    }

    fn from_field_list(fs: &Vec<Field>) -> (r: Option<Self>) {
        let executed_command = opt_string(find_last_len(fs, 1));
        let args = crate::pb::find_req_msg::<OutputArgs>(fs, 3);
        match (executed_command, args) {
            (Some(executed_command), Some(req_output_args)) => Some(OperationResult { executed_command, req_output_args }),
            _ => None,
        }
    }

    proof fn lemma_nums(v: OperationResultV) {
    }

    proof fn lemma_round(v: OperationResultV) {
        let fs = Self::fields_of(v);
        lemma_last_at(fs, 0, 1);
        lemma_str_round(v.executed_command);
        lemma_child_at::<OutputArgs>(fs, 1, 3, v.output_args);
    }
}

pub struct OperateRespV {
    pub command_key: Seq<char>,
    pub operation_results: Seq<OperationResultV>,
}

/// The reply to an Operate: the command key echoed and the results.
pub struct OperateResp {
    pub command_key: String,
    pub operation_results: Vec<OperationResult>,
}

impl View for OperateResp {
    type V = OperateRespV;

    open spec fn view(&self) -> OperateRespV {
        OperateRespV { command_key: self.command_key@, operation_results: view_seq(self.operation_results@) }
    }
}

impl Proto for OperateResp {
    open spec fn fields_of(v: OperateRespV) -> Seq<FieldV> {
        seq![str_f(2, v.command_key)] + child_fields::<OperationResult>(1, v.operation_results)
    }

    open spec fn from_fields(fs: Seq<FieldV>) -> Option<OperateRespV> {
        match (opt_str(last_len(fs, 2)), all_msgs::<OperationResult>(fs, 1)) {
            (Some(command_key), Some(operation_results)) => Some(OperateRespV { command_key, operation_results }),
            _ => None,
        }
    }

    fn to_fields(&self) -> (r: Vec<Field>) {
        let mut fs: Vec<Field> = Vec::new();
        fs.push(str_field(2, self.command_key.as_str()));
        assert(fview(fs@) =~= seq![str_f(2, self.command_key@)]);
        push_children(&mut fs, 1, &self.operation_results);
        fs
    }

    fn from_field_list(fs: &Vec<Field>) -> (r: Option<Self>) {
        let command_key = opt_string(find_last_len(fs, 2));
        let results = collect_children::<OperationResult>(fs, 1);
        match (command_key, results) {
            (Some(command_key), Some(operation_results)) => Some(OperateResp { command_key, operation_results }),
            _ => None,
        }
    }

    proof fn lemma_nums(v: OperateRespV) {
        let fs = Self::fields_of(v);
        assert forall|i: int| 0 <= i < fs.len() implies crate::wire::valid_num(#[trigger] fs[i].num) by {
            if i > 0 {
                assert(fs[i].num == 1);
            }
        }
    }

    proof fn lemma_round(v: OperateRespV) {
        let head = seq![str_f(2, v.command_key)];
        let tail = child_fields::<OperationResult>(1, v.operation_results);
        assert forall|i: int| 0 <= i < tail.len() implies (#[trigger] tail[i]).num != 2 by {}
        lemma_skip(head, tail, 2);
        lemma_last_at(head, 0, 2);
        lemma_str_round(v.command_key);
        lemma_children_round::<OperationResult>(head, 1, v.operation_results);
    }
}


// ---------------------------------------------------------------- envelopes

proof fn lemma_oneof_one<T: Proto>(k: u64, v: T::V, nums: Seq<u64>, idx: int)
    requires
        0 <= idx < nums.len(),
        nums[idx] == k,
        fields_bytes(seq![len_f(k, enc::<T>(v))]).len() < 0x1_0000_0000_0000_0000,
    ensures
        last_among(seq![len_f(k, enc::<T>(v))], nums) == Some(len_f(k, enc::<T>(v))),
        dec::<T>(enc::<T>(v)) == Some(v),
{
    lemma_last_among_one(Seq::empty(), len_f(k, enc::<T>(v)), nums, idx);
    assert(Seq::<FieldV>::empty().push(len_f(k, enc::<T>(v))) =~= seq![len_f(k, enc::<T>(v))]);
    lemma_payload_within(seq![len_f(k, enc::<T>(v))], 0);
    crate::pb::lemma_enc_dec::<T>(v);
}

proof fn lemma_last_among_empty(nums: Seq<u64>)
    ensures
        last_among(Seq::<FieldV>::empty(), nums) is None,
{
}

pub enum RequestV {
    Get(<Get as View>::V),
    SetReq(<SetReq as View>::V),
    Operate(<Operate as View>::V),
    Notify(<Notify as View>::V),
    GetSupportedProto(<GetSupportedProto as View>::V),
    Unset,
}

/// A request, by kind.
pub enum Request {
    Get(Get),
    SetReq(SetReq),
    Operate(Operate),
    Notify(Notify),
    GetSupportedProto(GetSupportedProto),
    /// A request of a kind this agent does not model.
    Unset,
}

impl View for Request {
    type V = RequestV;

    open spec fn view(&self) -> RequestV {
        match self {
            Request::Get(x) => RequestV::Get(x@),
            Request::SetReq(x) => RequestV::SetReq(x@),
            Request::Operate(x) => RequestV::Operate(x@),
            Request::Notify(x) => RequestV::Notify(x@),
            Request::GetSupportedProto(x) => RequestV::GetSupportedProto(x@),
            Request::Unset => RequestV::Unset,
        }
    }
}

pub open spec fn request_nums() -> Seq<u64> {
    seq![1u64, 4u64, 7u64, 8u64, 9u64]
}

impl Proto for Request {
    open spec fn fields_of(v: RequestV) -> Seq<FieldV> {
        match v {
            RequestV::Get(x) => seq![len_f(1, enc::<Get>(x))],
            RequestV::SetReq(x) => seq![len_f(4, enc::<SetReq>(x))],
            RequestV::Operate(x) => seq![len_f(7, enc::<Operate>(x))],
            RequestV::Notify(x) => seq![len_f(8, enc::<Notify>(x))],
            RequestV::GetSupportedProto(x) => seq![len_f(9, enc::<GetSupportedProto>(x))],
            RequestV::Unset => seq![],
        }
    }

    open spec fn from_fields(fs: Seq<FieldV>) -> Option<RequestV> {
        match last_among(fs, request_nums()) {
            None => Some(RequestV::Unset),
            Some(f) => if f.num == 1 {
                match dec::<Get>(f.val->Len_0) {
                    Some(x) => Some(RequestV::Get(x)),
                    None => None,
                }
            } else if f.num == 4 {
                match dec::<SetReq>(f.val->Len_0) {
                    Some(x) => Some(RequestV::SetReq(x)),
                    None => None,
                }
            } else if f.num == 7 {
                match dec::<Operate>(f.val->Len_0) {
                    Some(x) => Some(RequestV::Operate(x)),
                    None => None,
                }
            } else if f.num == 8 {
                match dec::<Notify>(f.val->Len_0) {
                    Some(x) => Some(RequestV::Notify(x)),
                    None => None,
                }
            } else {
                match dec::<GetSupportedProto>(f.val->Len_0) {
                    Some(x) => Some(RequestV::GetSupportedProto(x)),
                    None => None,
                }
            },
        }
    }

    fn to_fields(&self) -> (r: Vec<Field>) {
        let mut fs: Vec<Field> = Vec::new();
        match self {
            Request::Get(x) => fs.push(msg_field(1, x)),
            Request::SetReq(x) => fs.push(msg_field(4, x)),
            Request::Operate(x) => fs.push(msg_field(7, x)),
            Request::Notify(x) => fs.push(msg_field(8, x)),
            Request::GetSupportedProto(x) => fs.push(msg_field(9, x)),
            Request::Unset => {},
        }
        assert(fview(fs@) =~= Self::fields_of(self@));
        fs
    }

    fn from_field_list(fs: &Vec<Field>) -> (r: Option<Self>) {
        let nums: [u64; 5] = [1, 4, 7, 8, 9];
        assert(nums@ =~= request_nums());
        match find_last_among(fs, &nums) {
            None => Some(Request::Unset),
            Some(f) => match &f.val {
                Wire::Len(b) => if f.num == 1 {
                    match crate::pb::decode_msg_of::<Get>(b.as_slice()) {
                    Some(x) => Some(Request::Get(x)),
                    None => None,
                }
                } else if f.num == 4 {
                    match crate::pb::decode_msg_of::<SetReq>(b.as_slice()) {
                    Some(x) => Some(Request::SetReq(x)),
                    None => None,
                }
                } else if f.num == 7 {
                    match crate::pb::decode_msg_of::<Operate>(b.as_slice()) {
                    Some(x) => Some(Request::Operate(x)),
                    None => None,
                }
                } else if f.num == 8 {
                    match crate::pb::decode_msg_of::<Notify>(b.as_slice()) {
                    Some(x) => Some(Request::Notify(x)),
                    None => None,
                }
                } else {
                    match crate::pb::decode_msg_of::<GetSupportedProto>(b.as_slice()) {
                    Some(x) => Some(Request::GetSupportedProto(x)),
                    None => None,
                }
                },
                _ => None,
            },
        }
    }

    proof fn lemma_nums(v: RequestV) {
    }

    proof fn lemma_round(v: RequestV) {
        match v {
            RequestV::Get(x) => lemma_oneof_one::<Get>(1, x, request_nums(), 0),
            RequestV::SetReq(x) => lemma_oneof_one::<SetReq>(4, x, request_nums(), 1),
            RequestV::Operate(x) => lemma_oneof_one::<Operate>(7, x, request_nums(), 2),
            RequestV::Notify(x) => lemma_oneof_one::<Notify>(8, x, request_nums(), 3),
            RequestV::GetSupportedProto(x) => lemma_oneof_one::<GetSupportedProto>(9, x, request_nums(), 4),
            RequestV::Unset => lemma_last_among_empty(request_nums()),
        }
    }
}

pub enum ResponseV {
    GetResp(<GetResp as View>::V),
    SetResp(<SetResp as View>::V),
    OperateResp(<OperateResp as View>::V),
    NotifyResp(<NotifyResp as View>::V),
    GetSupportedProtoResp(<GetSupportedProtoResp as View>::V),
    Unset,
}

/// A response, by kind.
pub enum Response {
    GetResp(GetResp),
    SetResp(SetResp),
    OperateResp(OperateResp),
    NotifyResp(NotifyResp),
    GetSupportedProtoResp(GetSupportedProtoResp),
    /// A response of a kind this agent does not model.
    Unset,
}

impl View for Response {
    type V = ResponseV;

    open spec fn view(&self) -> ResponseV {
        match self {
            Response::GetResp(x) => ResponseV::GetResp(x@),
            Response::SetResp(x) => ResponseV::SetResp(x@),
            Response::OperateResp(x) => ResponseV::OperateResp(x@),
            Response::NotifyResp(x) => ResponseV::NotifyResp(x@),
            Response::GetSupportedProtoResp(x) => ResponseV::GetSupportedProtoResp(x@),
            Response::Unset => ResponseV::Unset,
        }
    }
}

pub open spec fn response_nums() -> Seq<u64> {
    seq![1u64, 4u64, 7u64, 8u64, 9u64]
}

impl Proto for Response {
    open spec fn fields_of(v: ResponseV) -> Seq<FieldV> {
        match v {
            ResponseV::GetResp(x) => seq![len_f(1, enc::<GetResp>(x))],
            ResponseV::SetResp(x) => seq![len_f(4, enc::<SetResp>(x))],
            ResponseV::OperateResp(x) => seq![len_f(7, enc::<OperateResp>(x))],
            ResponseV::NotifyResp(x) => seq![len_f(8, enc::<NotifyResp>(x))],
            ResponseV::GetSupportedProtoResp(x) => seq![len_f(9, enc::<GetSupportedProtoResp>(x))],
            ResponseV::Unset => seq![],
        }
    }

    open spec fn from_fields(fs: Seq<FieldV>) -> Option<ResponseV> {
        match last_among(fs, response_nums()) {
            None => Some(ResponseV::Unset),
            Some(f) => if f.num == 1 {
                match dec::<GetResp>(f.val->Len_0) {
                    Some(x) => Some(ResponseV::GetResp(x)),
                    None => None,
                }
            } else if f.num == 4 {
                match dec::<SetResp>(f.val->Len_0) {
                    Some(x) => Some(ResponseV::SetResp(x)),
                    None => None,
                }
            } else if f.num == 7 {
                match dec::<OperateResp>(f.val->Len_0) {
                    Some(x) => Some(ResponseV::OperateResp(x)),
                    None => None,
                }
            } else if f.num == 8 {
                match dec::<NotifyResp>(f.val->Len_0) {
                    Some(x) => Some(ResponseV::NotifyResp(x)),
                    None => None,
                }
            } else {
                match dec::<GetSupportedProtoResp>(f.val->Len_0) {
                    Some(x) => Some(ResponseV::GetSupportedProtoResp(x)),
                    None => None,
                }
            },
        }
    }

    fn to_fields(&self) -> (r: Vec<Field>) {
        let mut fs: Vec<Field> = Vec::new();
        match self {
            Response::GetResp(x) => fs.push(msg_field(1, x)),
            Response::SetResp(x) => fs.push(msg_field(4, x)),
            Response::OperateResp(x) => fs.push(msg_field(7, x)),
            Response::NotifyResp(x) => fs.push(msg_field(8, x)),
            Response::GetSupportedProtoResp(x) => fs.push(msg_field(9, x)),
            Response::Unset => {},
        }
        assert(fview(fs@) =~= Self::fields_of(self@));
        fs
    }

    fn from_field_list(fs: &Vec<Field>) -> (r: Option<Self>) {
        let nums: [u64; 5] = [1, 4, 7, 8, 9];
        assert(nums@ =~= response_nums());
        match find_last_among(fs, &nums) {
            None => Some(Response::Unset),
            Some(f) => match &f.val {
                Wire::Len(b) => if f.num == 1 {
                    match crate::pb::decode_msg_of::<GetResp>(b.as_slice()) {
                    Some(x) => Some(Response::GetResp(x)),
                    None => None,
                }
                } else if f.num == 4 {
                    match crate::pb::decode_msg_of::<SetResp>(b.as_slice()) {
                    Some(x) => Some(Response::SetResp(x)),
                    None => None,
                }
                } else if f.num == 7 {
                    match crate::pb::decode_msg_of::<OperateResp>(b.as_slice()) {
                    Some(x) => Some(Response::OperateResp(x)),
                    None => None,
                }
                } else if f.num == 8 {
                    match crate::pb::decode_msg_of::<NotifyResp>(b.as_slice()) {
                    Some(x) => Some(Response::NotifyResp(x)),
                    None => None,
                }
                } else {
                    match crate::pb::decode_msg_of::<GetSupportedProtoResp>(b.as_slice()) {
                    Some(x) => Some(Response::GetSupportedProtoResp(x)),
                    None => None,
                }
                },
                _ => None,
            },
        }
    }

    proof fn lemma_nums(v: ResponseV) {
    }

    proof fn lemma_round(v: ResponseV) {
        match v {
            ResponseV::GetResp(x) => lemma_oneof_one::<GetResp>(1, x, response_nums(), 0),
            ResponseV::SetResp(x) => lemma_oneof_one::<SetResp>(4, x, response_nums(), 1),
            ResponseV::OperateResp(x) => lemma_oneof_one::<OperateResp>(7, x, response_nums(), 2),
            ResponseV::NotifyResp(x) => lemma_oneof_one::<NotifyResp>(8, x, response_nums(), 3),
            ResponseV::GetSupportedProtoResp(x) => lemma_oneof_one::<GetSupportedProtoResp>(9, x, response_nums(), 4),
            ResponseV::Unset => lemma_last_among_empty(response_nums()),
        }
    }
}

pub enum BodyV {
    Request(<Request as View>::V),
    Response(<Response as View>::V),
    Error(<ErrorMsg as View>::V),
    Unset,
}

/// What a message holds: a request, a response or an error.
pub enum Body {
    Request(Request),
    Response(Response),
    Error(ErrorMsg),
    /// A body that holds none of the three.
    Unset,
}

impl View for Body {
    type V = BodyV;

    open spec fn view(&self) -> BodyV {
        match self {
            Body::Request(x) => BodyV::Request(x@),
            Body::Response(x) => BodyV::Response(x@),
            Body::Error(x) => BodyV::Error(x@),
            Body::Unset => BodyV::Unset,
        }
    }
}

pub open spec fn body_nums() -> Seq<u64> {
    seq![1u64, 2u64, 3u64]
}

impl Proto for Body {
    open spec fn fields_of(v: BodyV) -> Seq<FieldV> {
        match v {
            BodyV::Request(x) => seq![len_f(1, enc::<Request>(x))],
            BodyV::Response(x) => seq![len_f(2, enc::<Response>(x))],
            BodyV::Error(x) => seq![len_f(3, enc::<ErrorMsg>(x))],
            BodyV::Unset => seq![],
        }
    }

    open spec fn from_fields(fs: Seq<FieldV>) -> Option<BodyV> {
        match last_among(fs, body_nums()) {
            None => Some(BodyV::Unset),
            Some(f) => if f.num == 1 {
                match dec::<Request>(f.val->Len_0) {
                    Some(x) => Some(BodyV::Request(x)),
                    None => None,
                }
            } else if f.num == 2 {
                match dec::<Response>(f.val->Len_0) {
                    Some(x) => Some(BodyV::Response(x)),
                    None => None,
                }
            } else {
                match dec::<ErrorMsg>(f.val->Len_0) {
                    Some(x) => Some(BodyV::Error(x)),
                    None => None,
                }
            },
        }
    }

    fn to_fields(&self) -> (r: Vec<Field>) {
        let mut fs: Vec<Field> = Vec::new();
        match self {
            Body::Request(x) => fs.push(msg_field(1, x)),
            Body::Response(x) => fs.push(msg_field(2, x)),
            Body::Error(x) => fs.push(msg_field(3, x)),
            Body::Unset => {},
        }
        assert(fview(fs@) =~= Self::fields_of(self@));
        fs
    }

    fn from_field_list(fs: &Vec<Field>) -> (r: Option<Self>) {
        let nums: [u64; 3] = [1, 2, 3];
        assert(nums@ =~= body_nums());
        match find_last_among(fs, &nums) {
            None => Some(Body::Unset),
            Some(f) => match &f.val {
                Wire::Len(b) => if f.num == 1 {
                    match crate::pb::decode_msg_of::<Request>(b.as_slice()) {
                    Some(x) => Some(Body::Request(x)),
                    None => None,
                }
                } else if f.num == 2 {
                    match crate::pb::decode_msg_of::<Response>(b.as_slice()) {
                    Some(x) => Some(Body::Response(x)),
                    None => None,
                }
                } else {
                    match crate::pb::decode_msg_of::<ErrorMsg>(b.as_slice()) {
                    Some(x) => Some(Body::Error(x)),
                    None => None,
                }
                },
                _ => None,
            },
        }
    }

    proof fn lemma_nums(v: BodyV) {
    }

    proof fn lemma_round(v: BodyV) {
        match v {
            BodyV::Request(x) => lemma_oneof_one::<Request>(1, x, body_nums(), 0),
            BodyV::Response(x) => lemma_oneof_one::<Response>(2, x, body_nums(), 1),
            BodyV::Error(x) => lemma_oneof_one::<ErrorMsg>(3, x, body_nums(), 2),
            BodyV::Unset => lemma_last_among_empty(body_nums()),
        }
    }
}

pub struct MsgV {
    pub header: Option<HeaderV>,
    pub body: Option<BodyV>,
}

/// A USP message.
pub struct Msg {
    pub header: Option<Header>,
    pub body: Option<Body>,
}

impl View for Msg {
    type V = MsgV;

    open spec fn view(&self) -> MsgV {
        MsgV {
            header: match &self.header {
                Some(h) => Some(h@),
                None => None,
            },
            body: match &self.body {
                Some(b) => Some(b@),
                None => None,
            },
        }
    }
}

pub open spec fn opt_field<T: Proto>(n: u64, o: Option<T::V>) -> Seq<FieldV> {
    match o {
        Some(v) => seq![len_f(n, enc::<T>(v))],
        None => seq![],
    }
}

impl Proto for Msg {
    open spec fn fields_of(v: MsgV) -> Seq<FieldV> {
        opt_field::<Header>(1, v.header) + opt_field::<Body>(2, v.body)
    }

    open spec fn from_fields(fs: Seq<FieldV>) -> Option<MsgV> {
        match (opt_msg::<Header>(fs, 1), opt_msg::<Body>(fs, 2)) {
            (Some(header), Some(body)) => Some(MsgV { header, body }),
            _ => None,
        }
    }

    fn to_fields(&self) -> (r: Vec<Field>) {
        let mut fs: Vec<Field> = Vec::new();
        match &self.header {
            Some(h) => fs.push(msg_field(1, h)),
            None => {},
        }
        match &self.body {
            Some(b) => fs.push(msg_field(2, b)),
            None => {},
        }
        assert(fview(fs@) =~= Self::fields_of(self@));
        fs
    }

    fn from_field_list(fs: &Vec<Field>) -> (r: Option<Self>) {
        let header = find_opt_msg::<Header>(fs, 1);
        let body = find_opt_msg::<Body>(fs, 2);
        match (header, body) {
            (Some(header), Some(body)) => Some(Msg { header, body }),
            _ => None,
        }
    }

    proof fn lemma_nums(v: MsgV) {
    }

    proof fn lemma_round(v: MsgV) {
        lemma_msg_round(v);
    }
}

proof fn lemma_msg_round(v: MsgV)
    requires
        fields_bytes(<Msg as Proto>::fields_of(v)).len() < 0x1_0000_0000_0000_0000,
    ensures
        <Msg as Proto>::from_fields(<Msg as Proto>::fields_of(v)) == Some(v),
{
    let fs = <Msg as Proto>::fields_of(v);
    let h = opt_field::<Header>(1, v.header);
    let b = opt_field::<Body>(2, v.body);
    assert forall|i: int| 0 <= i < b.len() implies (#[trigger] b[i]).num != 1 by {}
    match v.header {
        Some(hv) => {
            lemma_skip(h, b, 1);
            lemma_payload_within(fs, 0);
            lemma_last_at(h, 0, 1);
            crate::pb::lemma_enc_dec::<Header>(hv);
        },
        None => {
            assert(fs =~= b);
            lemma_absent(b, 1);
        },
    }
    match v.body {
        Some(bv) => {
            let i = fs.len() - 1;
            assert(fs[i] == len_f(2, enc::<Body>(bv)));
            lemma_last_at(fs, i, 2);
            lemma_payload_within(fs, i);
            crate::pb::lemma_enc_dec::<Body>(bv);
        },
        None => {
            assert(fs =~= h);
            lemma_absent(h, 2);
        },
    }
}

/// Decoding the encoding of a message gives the message back, for every
/// message whose encoding fits in memory.
pub proof fn lemma_msg_round_trip(m: MsgV)
    requires
        enc::<Msg>(m).len() < 0x1_0000_0000_0000_0000,
    ensures
        dec::<Msg>(enc::<Msg>(m)) == Some(m),
{
    crate::pb::lemma_enc_dec::<Msg>(m);
}


// ---------------------------------------------------------------- types of message

/// The kinds of message, as written in a header.
#[derive(Debug, Clone, Copy, PartialEq, Eq)]
pub enum MessageType {
    Error,
    Get,
    GetResp,
    Notify,
    SetReq,
    SetResp,
    Operate,
    OperateResp,
    Add,
    AddResp,
    Delete,
    DeleteResp,
    GetSupportedDm,
    GetSupportedDmResp,
    GetInstances,
    GetInstancesResp,
    NotifyResp,
    GetSupportedProto,
    GetSupportedProtoResp,
}

pub open spec fn type_code(t: MessageType) -> u64 {
    match t {
        MessageType::Error => 0,
        MessageType::Get => 1,
        MessageType::GetResp => 2,
        MessageType::Notify => 3,
        MessageType::SetReq => 4,
        MessageType::SetResp => 5,
        MessageType::Operate => 6,
        MessageType::OperateResp => 7,
        MessageType::Add => 8,
        MessageType::AddResp => 9,
        MessageType::Delete => 10,
        MessageType::DeleteResp => 11,
        MessageType::GetSupportedDm => 12,
        MessageType::GetSupportedDmResp => 13,
        MessageType::GetInstances => 14,
        MessageType::GetInstancesResp => 15,
        MessageType::NotifyResp => 16,
        MessageType::GetSupportedProto => 17,
        MessageType::GetSupportedProtoResp => 18,
    }
}

/// The kind that code `c` names, if any.
pub open spec fn type_of(c: u64) -> Option<MessageType> {
    if c == 0 {
        Some(MessageType::Error)
    } else if c == 1 {
        Some(MessageType::Get)
    } else if c == 2 {
        Some(MessageType::GetResp)
    } else if c == 3 {
        Some(MessageType::Notify)
    } else if c == 4 {
        Some(MessageType::SetReq)
    } else if c == 5 {
        Some(MessageType::SetResp)
    } else if c == 6 {
        Some(MessageType::Operate)
    } else if c == 7 {
        Some(MessageType::OperateResp)
    } else if c == 8 {
        Some(MessageType::Add)
    } else if c == 9 {
        Some(MessageType::AddResp)
    } else if c == 10 {
        Some(MessageType::Delete)
    } else if c == 11 {
        Some(MessageType::DeleteResp)
    } else if c == 12 {
        Some(MessageType::GetSupportedDm)
    } else if c == 13 {
        Some(MessageType::GetSupportedDmResp)
    } else if c == 14 {
        Some(MessageType::GetInstances)
    } else if c == 15 {
        Some(MessageType::GetInstancesResp)
    } else if c == 16 {
        Some(MessageType::NotifyResp)
    } else if c == 17 {
        Some(MessageType::GetSupportedProto)
    } else if c == 18 {
        Some(MessageType::GetSupportedProtoResp)
    } else {
        None
    }
}

impl MessageType {
    /// The number written in a header for this kind.
    pub fn code(&self) -> (r: u64)
        ensures
            r == type_code(*self),
    {
        match self {
            MessageType::Error => 0,
            MessageType::Get => 1,
            MessageType::GetResp => 2,
            MessageType::Notify => 3,
            MessageType::SetReq => 4,
            MessageType::SetResp => 5,
            MessageType::Operate => 6,
            MessageType::OperateResp => 7,
            MessageType::Add => 8,
            MessageType::AddResp => 9,
            MessageType::Delete => 10,
            MessageType::DeleteResp => 11,
            MessageType::GetSupportedDm => 12,
            MessageType::GetSupportedDmResp => 13,
            MessageType::GetInstances => 14,
            MessageType::GetInstancesResp => 15,
            MessageType::NotifyResp => 16,
            MessageType::GetSupportedProto => 17,
            MessageType::GetSupportedProtoResp => 18,
        }
    }

    /// The kind written as `c`, if `c` names one.
    pub fn from_code(c: u64) -> (r: Option<MessageType>)
        ensures
            r == type_of(c),
    {
        if c == 0 {
            Some(MessageType::Error)
        } else if c == 1 {
            Some(MessageType::Get)
        } else if c == 2 {
            Some(MessageType::GetResp)
        } else if c == 3 {
            Some(MessageType::Notify)
        } else if c == 4 {
            Some(MessageType::SetReq)
        } else if c == 5 {
            Some(MessageType::SetResp)
        } else if c == 6 {
            Some(MessageType::Operate)
        } else if c == 7 {
            Some(MessageType::OperateResp)
        } else if c == 8 {
            Some(MessageType::Add)
        } else if c == 9 {
            Some(MessageType::AddResp)
        } else if c == 10 {
            Some(MessageType::Delete)
        } else if c == 11 {
            Some(MessageType::DeleteResp)
        } else if c == 12 {
            Some(MessageType::GetSupportedDm)
        } else if c == 13 {
            Some(MessageType::GetSupportedDmResp)
        } else if c == 14 {
            Some(MessageType::GetInstances)
        } else if c == 15 {
            Some(MessageType::GetInstancesResp)
        } else if c == 16 {
            Some(MessageType::NotifyResp)
        } else if c == 17 {
            Some(MessageType::GetSupportedProto)
        } else if c == 18 {
            Some(MessageType::GetSupportedProtoResp)
        } else {
            None
        }
    }
}

// ---------------------------------------------------------------- codec

/// Decodes a message.
pub fn decode_msg(data: &[u8]) -> (r: Result<Msg, UspError>)
    ensures
        match dec::<Msg>(data@) {
            Some(v) => r matches Ok(m) && m@ == v,
            None => r == Err::<Msg, UspError>(UspError::Decode),
        },
{
    match crate::pb::decode_msg_of::<Msg>(data) {
        Some(m) => Ok(m),
        None => Err(UspError::Decode),
    }
}

/// Encodes a message. Encoding cannot fail.
pub fn encode_msg(msg: &Msg) -> (r: Result<Vec<u8>, UspError>)
    ensures
        r matches Ok(b) && b@ == enc::<Msg>(msg@),
{
    Ok(crate::pb::encode_msg_of(msg))
}

// ---------------------------------------------------------------- builders

/// The text of a random version-4 UUID: 36 characters, with hyphens at
/// positions 8, 13, 18 and 23 and lower-case hex digits elsewhere.
pub open spec fn is_uuid_text(s: Seq<char>) -> bool {
    &&& s.len() == 36
    &&& forall|i: int|
        0 <= i < 36 ==> if i == 8 || i == 13 || i == 18 || i == 23 {
            s[i] == '-'
        } else {
            ('0' <= #[trigger] s[i] <= '9') || ('a' <= s[i] <= 'f')
        }
}

/// A fresh message identifier.
///
/// Relies on uuid's `Uuid::new_v4` and its `Display`, which writes the
/// lower-case hyphenated form.
#[verifier::external_body]
pub fn new_msg_id() -> (r: String)
    ensures
        is_uuid_text(r@),
{
    uuid::Uuid::new_v4().to_string()
}

/// A header of the given kind with a fresh identifier.
pub fn make_header(msg_type: MessageType) -> (h: Header)
    ensures
        h@.msg_type == type_code(msg_type),
        is_uuid_text(h@.msg_id),
{
    Header { msg_id: new_msg_id(), msg_type: msg_type.code() }
}

fn header_for(msg_id: &str, msg_type: MessageType) -> (h: Header)
    ensures
        h@ == (HeaderV { msg_id: msg_id@, msg_type: type_code(msg_type) }),
{
    Header { msg_id: String::from_str(msg_id), msg_type: msg_type.code() }
}

/// The event that a Boot! notification reports.
pub open spec fn boot_event(params: Seq<(Seq<char>, Seq<char>)>) -> EventV {
    EventV { obj_path: seq!['D', 'e', 'v', 'i', 'c', 'e', '.'], event_name: seq!['B', 'o', 'o', 't', '!'], command_key: seq![], params }
}

/// A Boot! notification on `Device.` carrying the given parameters, under a
/// fresh identifier.
pub fn build_boot_notify(subscription_id: &str, send_resp: bool, parameter_map: Vec<(String, String)>) -> (m: Msg)
    ensures
        m@.header matches Some(h) && h.msg_type == type_code(MessageType::Notify) && is_uuid_text(h.msg_id),
        m@.body == Some(
            BodyV::Request(
                RequestV::Notify(
                    NotifyV {
                        subscription_id: subscription_id@,
                        send_resp,
                        notification: Some(NotificationV::Event(boot_event(view_seq(parameter_map@)))),
                    },
                ),
            ),
        ),
{
    let obj_path = String::from_str("Device.");
    let event_name = String::from_str("Boot!");
    proof {
        reveal_strlit("Device.");
        reveal_strlit("Boot!");
    }
    let command_key = String::new();
    assert(obj_path@ =~= seq!['D', 'e', 'v', 'i', 'c', 'e', '.']);
    assert(event_name@ =~= seq!['B', 'o', 'o', 't', '!']);
    assert(command_key@ =~= Seq::<char>::empty());
    let event = Event { obj_path, event_name, command_key, params: parameter_map };
    assert(event@ == boot_event(view_seq(parameter_map@)));
    Msg {
        header: Some(make_header(MessageType::Notify)),
        body: Some(
            Body::Request(
                Request::Notify(
                    Notify {
                        subscription_id: String::from_str(subscription_id),
                        send_resp,
                        notification: Some(Notification::Event(event)),
                    },
                ),
            ),
        ),
    }
}

/// A value-change notification for one parameter, under a fresh identifier.
pub fn build_value_change_notify(subscription_id: &str, param_path: &str, param_value: &str) -> (m: Msg)
    ensures
        m@.header matches Some(h) && h.msg_type == type_code(MessageType::Notify) && is_uuid_text(h.msg_id),
        m@.body == Some(
            BodyV::Request(
                RequestV::Notify(
                    NotifyV {
                        subscription_id: subscription_id@,
                        send_resp: false,
                        notification: Some(
                            NotificationV::ValueChange(ValueChangeV { param_path: param_path@, param_value: param_value@ }),
                        ),
                    },
                ),
            ),
        ),
{
    Msg {
        header: Some(make_header(MessageType::Notify)),
        body: Some(
            Body::Request(
                Request::Notify(
                    Notify {
                        subscription_id: String::from_str(subscription_id),
                        send_resp: false,
                        notification: Some(
                            Notification::ValueChange(
                                ValueChange { param_path: String::from_str(param_path), param_value: String::from_str(param_value) },
                            ),
                        ),
                    },
                ),
            ),
        ),
    }
}

/// A request for the controller's protocol versions, offering 1.3, under a
/// fresh identifier.
pub fn build_get_supported_proto() -> (m: Msg)
    ensures
        m@.header matches Some(h) && h.msg_type == type_code(MessageType::GetSupportedProto) && is_uuid_text(h.msg_id),
        m@.body == Some(BodyV::Request(RequestV::GetSupportedProto(crate::record::default_version()))),
{
    Msg {
        header: Some(make_header(MessageType::GetSupportedProto)),
        body: Some(
            Body::Request(
                Request::GetSupportedProto(
                    GetSupportedProto { controller_supported_versions: crate::record::default_version_string() },
                ),
            ),
        ),
    }
}

/// The acknowledgement of notification `msg_id`.
pub fn build_notify_resp(msg_id: &str, subscription_id: &str) -> (m: Msg)
    ensures
        m@ == (MsgV {
            header: Some(HeaderV { msg_id: msg_id@, msg_type: type_code(MessageType::NotifyResp) }),
            body: Some(BodyV::Response(ResponseV::NotifyResp(subscription_id@))),
        }),
{
    Msg {
        header: Some(header_for(msg_id, MessageType::NotifyResp)),
        body: Some(Body::Response(Response::NotifyResp(NotifyResp { subscription_id: String::from_str(subscription_id) }))),
    }
}

/// The reply to Operate `msg_id`: one result for `command` with its output
/// arguments, echoing the command key.
pub fn build_operate_resp(msg_id: &str, command: &str, command_key: &str, output_args: Vec<(String, String)>) -> (m: Msg)
    ensures
        m@ == (MsgV {
            header: Some(HeaderV { msg_id: msg_id@, msg_type: type_code(MessageType::OperateResp) }),
            body: Some(
                BodyV::Response(
                    ResponseV::OperateResp(
                        OperateRespV {
                            command_key: command_key@,
                            operation_results: seq![
                                OperationResultV { executed_command: command@, output_args: view_seq(output_args@) },
                            ],
                        },
                    ),
                ),
            ),
        }),
{
    let result = OperationResult {
        executed_command: String::from_str(command),
        req_output_args: OutputArgs { output_args },
    };
    let mut results: Vec<OperationResult> = Vec::new();
    results.push(result);
    let m = Msg {
        header: Some(header_for(msg_id, MessageType::OperateResp)),
        body: Some(
            Body::Response(
                Response::OperateResp(OperateResp { command_key: String::from_str(command_key), operation_results: results }),
            ),
        ),
    };
    assert(view_seq(results@) =~= seq![
        OperationResultV { executed_command: command@, output_args: view_seq(output_args@) },
    ]);
    m
}

/// The reply to Set `msg_id`: every object path reported updated.
pub fn build_set_resp(msg_id: &str, updated_obj_paths: &[String]) -> (m: Msg)
    ensures
        m@ == (MsgV {
            header: Some(HeaderV { msg_id: msg_id@, msg_type: type_code(MessageType::SetResp) }),
            body: Some(BodyV::Response(ResponseV::SetResp(view_seq(updated_obj_paths@)))),
        }),
{
    let mut results: Vec<UpdatedObjectResult> = Vec::new();
    let mut i: usize = 0;
    while i < updated_obj_paths.len()
        invariant
            i <= updated_obj_paths@.len(),
            view_seq(results@) == view_seq(updated_obj_paths@).take(i as int),
        decreases updated_obj_paths@.len() - i,
    {
        let ghost before = view_seq(results@);
        let p = updated_obj_paths[i].clone();
        assert(p@ == updated_obj_paths@[i as int]@);
        results.push(UpdatedObjectResult { requested_path: p });
        assert(view_seq(results@) =~= before.push(updated_obj_paths@[i as int]@));
        assert(view_seq(updated_obj_paths@).take(i + 1) =~= view_seq(updated_obj_paths@).take(i as int).push(
            updated_obj_paths@[i as int]@,
        ));
        i = i + 1;
    }
    assert(view_seq(updated_obj_paths@).take(i as int) =~= view_seq(updated_obj_paths@));
    Msg {
        header: Some(header_for(msg_id, MessageType::SetResp)),
        body: Some(Body::Response(Response::SetResp(SetResp { updated_obj_results: results }))),
    }
}

/// An error reply to `msg_id`.
pub fn build_error(msg_id: &str, err_code: u32, err_msg: &str) -> (m: Msg)
    ensures
        m@ == (MsgV {
            header: Some(HeaderV { msg_id: msg_id@, msg_type: type_code(MessageType::Error) }),
            body: Some(BodyV::Error(ErrorV { err_code, err_msg: err_msg@ })),
        }),
{
    Msg {
        header: Some(header_for(msg_id, MessageType::Error)),
        body: Some(Body::Error(ErrorMsg { err_code, err_msg: String::from_str(err_msg) })),
    }
}

/// The result written for one parameter of a Get reply.
pub open spec fn path_result(p: (Seq<char>, Seq<char>)) -> RequestedPathResultV {
    RequestedPathResultV {
        requested_path: p.0,
        err_code: 0,
        err_msg: seq![],
        resolved_path_results: seq![
            ResolvedPathResultV { resolved_path: p.0, result_params: seq![(seq![], p.1)] },
        ],
    }
}

/// The reply to Get `msg_id`: one result per parameter, each resolved to
/// itself with its value under the empty key.
pub fn build_get_resp(msg_id: &str, params: &Vec<(String, String)>) -> (m: Msg)
    ensures
        m@ == (MsgV {
            header: Some(HeaderV { msg_id: msg_id@, msg_type: type_code(MessageType::GetResp) }),
            body: Some(BodyV::Response(ResponseV::GetResp(view_seq(params@).map_values(|p| path_result(p))))),
        }),
{
    let mut results: Vec<RequestedPathResult> = Vec::new();
    let mut i: usize = 0;
    while i < params.len()
        invariant
            i <= params@.len(),
            view_seq(results@) == view_seq(params@).take(i as int).map_values(|p| path_result(p)),
        decreases params@.len() - i,
    {
        let (k, v) = &params[i];
        let mut result_params: Vec<(String, String)> = Vec::new();
        result_params.push((String::new(), v.clone()));
        let mut resolved: Vec<ResolvedPathResult> = Vec::new();
        resolved.push(ResolvedPathResult { resolved_path: k.clone(), result_params });
        let r = RequestedPathResult {
            requested_path: k.clone(),
            err_code: 0,
            err_msg: String::new(),
            resolved_path_results: resolved,
        };
        proof {
            assert(view_seq(result_params@) =~= seq![(Seq::<char>::empty(), v@)]);
            assert(view_seq(resolved@) =~= seq![
                ResolvedPathResultV { resolved_path: k@, result_params: seq![(Seq::<char>::empty(), v@)] },
            ]);
            assert(params@[i as int]@ == (k@, v@));
            assert(r@ == path_result(view_seq(params@)[i as int]));
        }
        let ghost before = view_seq(results@);
        results.push(r);
        assert(view_seq(results@) =~= before.push(r@));
        assert(view_seq(params@).take(i + 1).map_values(|p| path_result(p)) =~= view_seq(params@).take(
            i as int,
        ).map_values(|p| path_result(p)).push(path_result(view_seq(params@)[i as int])));
        i = i + 1;
    }
    assert(view_seq(params@).take(i as int) =~= view_seq(params@));
    Msg {
        header: Some(header_for(msg_id, MessageType::GetResp)),
        body: Some(Body::Response(Response::GetResp(GetResp { req_path_results: results }))),
    }
}

} // verus!
