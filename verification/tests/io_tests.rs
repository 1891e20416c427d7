use std::cell::RefCell;
use std::rc::Rc;

use streamcrypt::error::Error as CrateError;
use streamcrypt::io::{ByteSink, ByteSource, Control, Input, IoFault, Output, SecretPrompt};
use streamcrypt::secret::text_of;

struct MockRead<T: AsRef<[u8]>> {
    inner: T,
    idx_start: usize,
    step: usize,
    is_err: bool,
}

impl<T: AsRef<[u8]>> MockRead<T> {
    fn new(inner: T, step: usize) -> Self {
        Self {
            inner,
            step,
            idx_start: 0,
            is_err: false,
        }
    }
}

impl<T: AsRef<[u8]>> ByteSource for MockRead<T> {
    fn read_at(&mut self, buf: &mut Vec<u8>, start: usize) -> Result<usize, IoFault> {
        if self.idx_start % (self.step.checked_mul(2).unwrap()) == 0 {
            if self.is_err {
                self.is_err = false;
            } else {
                self.is_err = true;
                return Err(IoFault::Interrupted);
            }
        }
        let n = [
            self.step,
            buf.len() - start,
            self.inner.as_ref().len().checked_sub(self.idx_start).unwrap(),
        ]
        .iter()
        .min()
        .unwrap()
        .to_owned();
        let idx_stop = self.idx_start.checked_add(n).unwrap();
        buf[start..start + n].copy_from_slice(&self.inner.as_ref()[self.idx_start..idx_stop]);
        self.idx_start = idx_stop;
        Ok(n)
    }
}

struct MockWrite<T: AsMut<[u8]>> {
    inner: Rc<RefCell<T>>,
    idx_start: usize,
    step: usize,
    is_err: bool,
}

impl<T: AsMut<[u8]>> MockWrite<T> {
    fn new(inner: Rc<RefCell<T>>, step: usize) -> Self {
        Self {
            inner,
            step,
            idx_start: 0,
            is_err: false,
        }
    }
}

impl<T: AsMut<[u8]>> ByteSink for MockWrite<T> {
    fn write_from(&mut self, buf: &[u8], start: usize) -> Result<usize, IoFault> {
        if self.idx_start % (self.step.checked_mul(2).unwrap()) == 0 {
            if self.is_err {
                self.is_err = false;
            } else {
                self.is_err = true;
                return Err(IoFault::Interrupted);
            }
        }
        let mut inner = self.inner.borrow_mut();
        let n = [
            self.step,
            buf.len() - start,
            inner.as_mut().len().checked_sub(self.idx_start).unwrap(),
        ]
        .iter()
        .min()
        .unwrap()
        .to_owned();
        let idx_stop = self.idx_start.checked_add(n).unwrap();
        inner.as_mut()[self.idx_start..idx_stop].copy_from_slice(&buf[start..start + n]);
        self.idx_start = idx_stop;
        Ok(n)
    }
}

struct MockPrompt(fn(&str) -> Result<String, String>);

impl SecretPrompt for MockPrompt {
    fn prompt_line(&self, request: &str) -> Result<String, String> {
        (self.0)(request)
    }
}

fn input_read_base(
    size_step: usize,
    size_data: usize,
    size_sample: usize,
    size_buffer: usize,
) -> (Vec<u8>, Vec<u8>) {
    // Data set
    let mut vec_data = vec![0u8; size_data];
    let mut vec_expected = vec![0u8; size_sample];
    for i in 0..size_data {
        let val = u8::try_from(i).unwrap();
        vec_data[i] = val;
        vec_expected[i] = val;
    }

    // Mock reader and input
    let mock_read = MockRead::new(vec_data, size_step);
    let mut input = Input::new(mock_read);

    // Process data
    let mut vec_fact = vec![0u8; size_sample];
    let mut vec_buff = vec![0u8; size_buffer];

    let mut idx_start = 0;
    loop {
        let nread = input.read(&mut vec_buff).unwrap();
        if nread == size_buffer {
            let idx_stop = idx_start + size_buffer;
            (&mut vec_fact[idx_start..idx_stop]).copy_from_slice(&vec_buff);
            idx_start = idx_stop;
        } else {
            let idx_stop = idx_start + nread;
            (&mut vec_fact[idx_start..idx_stop]).copy_from_slice(&vec_buff[..nread]);
            break;
        }
    }
    (vec_expected, vec_fact)
}

fn output_write_base(
    size_step: usize,
    size_data: usize,
    size_sample: usize,
) -> (Vec<u8>, Rc<RefCell<Vec<u8>>>) {
    // Data set
    let mut vec_data = vec![0u8; size_data];
    let mut vec_expected = vec![0u8; size_sample];
    for i in 0..size_data {
        let val = u8::try_from(i).unwrap();
        vec_data[i] = val;
        vec_expected[i] = val;
    }

    // Mock writer and output
    let vec_fact = Rc::new(RefCell::new(vec![0u8; size_sample]));
    let mock_write = MockWrite::new(vec_fact.clone(), size_step);
    let mut output = Output::new(mock_write);

    // Process data
    output.write(&vec_data).unwrap();
    drop(output);

    (vec_expected, vec_fact)
}

#[test]
fn input_read_aliquant() {
    let size_data: usize = 41;
    let size_sample: usize = size_data + 1;
    let size_buffer: usize = 15;
    let (left, right) = input_read_base(5, size_data, size_sample, size_buffer);
    assert_eq!(left, right);
}

#[test]
fn input_read_aliquot() {
    let size_data: usize = 40;
    let size_sample: usize = size_data;
    let size_buffer: usize = 10;
    let (left, right) = input_read_base(5, size_data, size_sample, size_buffer);
    assert_eq!(left, right);
}

#[test]
fn input_read_u32() {
    const VALUE: u32 = 2217864614;
    let bytes = VALUE.clone().to_be_bytes();
    let mock_read = MockRead::new(bytes, 5);
    let mut input = Input::new(mock_read);
    assert_eq!(VALUE, input.read_u32().unwrap());
}

#[test]
fn input_read_u8() {
    const VALUE: u8 = 188;
    let bytes = VALUE.clone().to_be_bytes();
    let mock_read = MockRead::new(bytes, 5);
    let mut input = Input::new(mock_read);
    assert_eq!(VALUE, input.read_u8().unwrap());
}

#[test]
fn input_read_exact() {
    const VALUE: &str = "Han shot first";
    let mock = String::from(VALUE).into_bytes();
    let expect = VALUE.as_bytes();
    let mut fact = vec![0u8; expect.len()];
    let mock_read = MockRead::new(mock, 5);
    let mut input = Input::new(mock_read);
    input.read_exact(&mut fact).unwrap();
    assert_eq!(expect, fact);
}

#[test]
fn output_write_aliquant() {
    let size_data: usize = 41;
    let size_sample: usize = size_data + 1;
    let (left, right_rc) = output_write_base(5, size_data, size_sample);
    let right_refcell: &RefCell<Vec<u8>> = &right_rc;
    let rigth_borrow = right_refcell.borrow();
    let right_ref: &Vec<u8> = rigth_borrow.as_ref();
    assert_eq!(&left, right_ref);
}

#[test]
fn output_write_aliquot() {
    let size_data: usize = 40;
    let size_sample: usize = size_data;
    let (left, right_rc) = output_write_base(5, size_data, size_sample);
    let right_refcell: &RefCell<Vec<u8>> = &right_rc;
    let rigth_borrow = right_refcell.borrow();
    let right_ref: &Vec<u8> = rigth_borrow.as_ref();
    assert_eq!(&left, right_ref);
}

#[test]
fn output_write_u32() {
    const VALUE: u32 = 2217864614;
    let right_rc = Rc::new(RefCell::new([0u8; 4]));
    {
        let mock_write = MockWrite::new(right_rc.clone(), 5);
        let mut output = Output::new(mock_write);
        output.write_u32(VALUE).unwrap();
    }
    let right_refcell: &RefCell<[u8; 4]> = &right_rc;
    let rigth_borrow = right_refcell.borrow();
    let right_ref = rigth_borrow.as_ref();
    assert_eq!(&VALUE.to_be_bytes(), right_ref);
}

#[test]
fn output_write_u8() {
    const VALUE: u8 = 188;
    let right_rc = Rc::new(RefCell::new([0u8; 1]));
    {
        let mock_write = MockWrite::new(right_rc.clone(), 5);
        let mut output = Output::new(mock_write);
        output.write_u8(VALUE).unwrap();
    }
    let right_refcell: &RefCell<[u8; 1]> = &right_rc;
    let rigth_borrow = right_refcell.borrow();
    let right_ref = rigth_borrow.as_ref();
    assert_eq!(&VALUE.to_be_bytes(), right_ref);
}

#[test]
fn control_prompt_arg() {
    let name: &str = "prompt-arg";
    const REQ_LEFT: &str = "prompt-arg: ";
    let arg: Option<String> = Some("imput via argument".to_string());
    let resp_left = "imput via argument";

    let control = Control::new(MockPrompt(|req| {
        assert_eq!(REQ_LEFT, req);
        Ok("imput via TTY".to_string())
    }));
    let resp_right = control.prompt(name, arg).unwrap();
    assert_eq!(resp_left, text_of(&resp_right));
}

#[test]
fn control_prompt_noarg() {
    let name: &str = "prompt-noarg";
    const REQ_LEFT: &str = "prompt-noarg: ";
    let arg: Option<String> = None;
    let resp_left = "imput via TTY";

    let control = Control::new(MockPrompt(|req| {
        assert_eq!(REQ_LEFT, req);
        Ok("imput via TTY".to_string())
    }));
    let resp_right = control.prompt(name, arg).unwrap();
    assert_eq!(resp_left, text_of(&resp_right));
}

#[test]
fn control_extract_arg() {
    let name: &str = "extract-arg";
    const REQ_LEFT: &str = "extract-arg: ";
    let arg = Some("imput a argument".to_string());

    let data = "imput a argument";
    let data_left = data.as_bytes();
    let mut data_right = vec![0u8; 16];

    let control = Control::new(MockPrompt(|req| {
        assert_eq!(REQ_LEFT, req);
        Ok("imput via TTY".to_string())
    }));

    let res = control.extract(name, &mut data_right, arg, true).unwrap();
    assert_eq!(Some(()), res);
    assert_eq!(data_left, &data_right[..]);
}

#[test]
fn control_extract_noarg() {
    let name: &str = "extract-arg";
    const REQ_LEFT: &str = "extract-arg: ";
    let arg = None;

    let data = "imput via TTY...";
    let data_left = data.as_bytes();
    let mut data_right = vec![0u8; 16];

    let control = Control::new(MockPrompt(|req| {
        assert_eq!(REQ_LEFT, req);
        Ok("imput via TTY...".to_string())
    }));

    let res = control.extract(name, &mut data_right, arg, true).unwrap();
    assert_eq!(Some(()), res);
    assert_eq!(data_left, &data_right[..]);
}

#[test]
fn control_extract_none() {
    let control = Control::new(MockPrompt(|_| Ok("imput via TTY...".to_string())));
    let mut data = vec![0u8; 16];
    let right = control.extract("extract-arg", &mut data, None, false).unwrap();
    assert_eq!(None, right);
    assert_eq!(vec![0u8; 16], data);
}

#[test]
fn control_extract_err() {
    let name = "err-arg";
    let mut data = vec![0u8; 17];
    let msg_left = format!("{} shoud be at least {} bytes", name, data.len());

    let arg = Some("imput a argument".to_string());
    let control = Control::new(MockPrompt(|_| Ok("imput via TTY...".to_string())));

    let res = control.extract(name, &mut data, arg, false);
    if let Err(CrateError::Arg(msg_right)) = res {
        assert_eq!(msg_left, msg_right);
    } else {
        panic!("test should return an error message: {}", msg_left);
    }
}

#[test]
fn input_read_exact_fails_on_short_stream() {
    let mock_read = MockRead::new(vec![1u8, 2, 3], 5);
    let mut input = Input::new(mock_read);
    let mut fact = vec![0u8; 10];
    match input.read_exact(&mut fact) {
        Err(CrateError::Io(m)) => assert_eq!(m, "unexpected end of stream"),
        _ => panic!("a short stream must fail an exact read"),
    }
}

#[test]
fn input_read_u32_fails_on_short_stream() {
    let mock_read = MockRead::new(vec![1u8, 2], 5);
    let mut input = Input::new(mock_read);
    match input.read_u32() {
        Err(CrateError::Io(m)) => assert_eq!(m, "unable to read u32"),
        _ => panic!("two bytes are not enough for a u32"),
    }
}

#[test]
fn output_write_fails_when_the_sink_is_full() {
    let right_rc = Rc::new(RefCell::new([0u8; 4]));
    let mock_write = MockWrite::new(right_rc.clone(), 5);
    let mut output = Output::new(mock_write);
    match output.write(&[1u8, 2, 3, 4, 5, 6]) {
        Err(CrateError::Io(m)) => assert_eq!(m, "failed to write whole buffer"),
        _ => panic!("a full sink must fail the write"),
    }
}
