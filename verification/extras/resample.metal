#include <metal_stdlib>
using namespace metal;

// Polyphase windowed-sinc resampling. Output sample k applies the taps of
// phase k % new_freq to the kernel_len padded input samples that start at
// (k / new_freq) * orig_freq. A threadgroup first copies the span of input
// that its outputs read into threadgroup memory.
kernel void resample_sinc_hann(
    device const float* input [[buffer(0)]],
    device float* output [[buffer(1)]],
    device const float* taps [[buffer(2)]],
    constant int& kernel_len [[buffer(3)]],
    constant int& orig_freq [[buffer(4)]],
    constant int& new_freq [[buffer(5)]],
    constant int& target_len [[buffer(6)]],
    threadgroup float* window [[threadgroup(0)]],
    uint gid [[thread_position_in_grid]],
    uint lid [[thread_position_in_threadgroup]],
    uint group_size [[threads_per_threadgroup]])
{
    int first = int(gid) - int(lid);
    int last = min(first + int(group_size), target_len) - 1;
    int base = (first / new_freq) * orig_freq;
    int span = (last / new_freq) * orig_freq + kernel_len - base;

    for (int i = int(lid); i < span; i += int(group_size)) {
        window[i] = input[base + i];
    }
    threadgroup_barrier(mem_flags::mem_threadgroup);

    int k = int(gid);
    if (k >= target_len) {
        return;
    }
    int start = (k / new_freq) * orig_freq - base;
    device const float* phase_taps = taps + (k % new_freq) * kernel_len;
    float sum = 0.0f;
    for (int i = 0; i < kernel_len; ++i) {
        sum += window[start + i] * phase_taps[i];
    }
    output[k] = sum;
}
